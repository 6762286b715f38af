//! The text of a note: a metadata header and the blocks that follow it.

use vstd::prelude::*;
use vstd::string::StringExecFns;
use crate::item::{link_token, source_url, Item, ItemView, NoteFrontMatter, NoteFrontMatterView};
use crate::text::{join, join_strings, opt_view, views};

verus! {

/// The YAML document that `serde_yaml` writes for a mapping of four entries
/// in this order: a list of texts, an optional text, an optional list of
/// texts and an optional text, each under its key. There is none where the
/// serializer fails.
pub uninterp spec fn yaml_text(
    tags_key: Seq<char>,
    tags: Seq<Seq<char>>,
    id_key: Seq<char>,
    id: Option<Seq<char>>,
    up_key: Seq<char>,
    up: Option<Seq<Seq<char>>>,
    title_key: Seq<char>,
    title: Option<Seq<char>>,
) -> Option<Seq<char>>;

/// The views of an optional list of strings.
pub open spec fn opt_views(o: Option<Vec<String>>) -> Option<Seq<Seq<char>>> {
    match o {
        Some(v) => Some(views(v@)),
        None => None,
    }
}

/// `serde_yaml::to_value`, `Mapping::insert` and `serde_yaml::to_string`: the
/// four values are put into a mapping under their keys, in the order given,
/// and the mapping is written as one YAML document.
#[verifier::external_body]
pub(crate) fn yaml_of_header(
    tags_key: &str,
    tags: &Vec<String>,
    id_key: &str,
    id: &Option<String>,
    up_key: &str,
    up: &Option<Vec<String>>,
    title_key: &str,
    title: &Option<String>,
) -> (r: Option<String>)
    ensures
        opt_view(r) == yaml_text(
            tags_key@,
            views(tags@),
            id_key@,
            opt_view(*id),
            up_key@,
            opt_views(*up),
            title_key@,
            opt_view(*title),
        ),
{
    let mut mapping = serde_yaml::Mapping::new();
    mapping.insert(serde_yaml::Value::from(tags_key), serde_yaml::to_value(tags).ok()?);
    mapping.insert(serde_yaml::Value::from(id_key), serde_yaml::to_value(id).ok()?);
    mapping.insert(serde_yaml::Value::from(up_key), serde_yaml::to_value(up).ok()?);
    mapping.insert(serde_yaml::Value::from(title_key), serde_yaml::to_value(title).ok()?);
    serde_yaml::to_string(&mapping).ok()
}

/// The metadata block of a note: the YAML document of the header's four
/// fields, closed by the delimiter.
pub open spec fn header_block(front: NoteFrontMatterView) -> Option<Seq<char>> {
    match yaml_text(
        "tags"@,
        front.tags,
        "margin_note_id"@,
        front.margin_note_id,
        "up"@,
        front.up,
        "title"@,
        front.title,
    ) {
        Some(yaml) => Some(yaml + "---"@),
        None => None,
    }
}

/// The embed of an image: `![[id.png]]`.
pub open spec fn image_token(id: Seq<char>) -> Seq<char> {
    "![["@ + id + ".png]]"@
}

/// The list line that links to a child: `- [[name]]`.
pub open spec fn child_line(name: Seq<char>) -> Seq<char> {
    "- "@ + link_token(name)
}

/// The heading of a note.
pub open spec fn heading(title: Seq<char>) -> Seq<char> {
    "# "@ + title
}

/// The line that links back to the annotation.
pub open spec fn source_line(id: Seq<char>) -> Seq<char> {
    "> [source]("@ + source_url(id) + ")"@
}

/// A block that is there only when its text is.
pub open spec fn optional_block(text: Option<Seq<char>>) -> Seq<Seq<char>> {
    match text {
        Some(t) => seq![t],
        None => Seq::empty(),
    }
}

/// The blocks of a note, in order: the header, the heading, the source line,
/// the links to the children, the comment, the image embeds. The heading, the
/// source line and the comment are there only when the item has a title, an
/// identifier, a comment.
pub open spec fn note_blocks(header: Seq<char>, item: ItemView, child_names: Seq<Seq<char>>) -> Seq<
    Seq<char>,
> {
    seq![header] + optional_block(
        match item.given_title {
            Some(title) => Some(heading(title)),
            None => None,
        },
    ) + optional_block(
        match item.margin_note_id {
            Some(id) => Some(source_line(id)),
            None => None,
        },
    ) + seq![join(child_names.map_values(|name: Seq<char>| child_line(name)), "\n"@)]
        + optional_block(item.comments) + seq![
        join(item.image_ids.map_values(|id: Seq<char>| image_token(id)), "\n"@),
    ]
}

/// The text of a note: its blocks with an empty line between each two.
pub open spec fn note_text(header: Seq<char>, item: ItemView, child_names: Seq<Seq<char>>) -> Seq<
    char,
> {
    join(note_blocks(header, item, child_names), "\n\n"@)
}

/// The metadata block for a header, or nothing where it cannot be serialized.
pub fn front_matter_block(front: &NoteFrontMatter) -> (r: Option<String>)
    ensures
        opt_view(r) == header_block(front@),
{
    match yaml_of_header(
        "tags",
        &front.tags,
        "margin_note_id",
        &front.margin_note_id,
        "up",
        &front.up,
        "title",
        &front.title,
    ) {
        Some(yaml) => {
            let mut block = yaml;
            block.append("---");
            Some(block)
        },
        None => None,
    }
}

fn child_lines(child_names: &Vec<String>) -> (r: Vec<String>)
    ensures
        views(r@) == views(child_names@).map_values(|name: Seq<char>| child_line(name)),
{
    let mut lines: Vec<String> = Vec::new();
    let mut i: usize = 0;
    while i < child_names.len()
        invariant
            i <= child_names.len(),
            lines@.len() == i,
            forall|k: int| 0 <= k < i ==> lines@[k]@ == child_line(child_names@[k]@),
        decreases child_names.len() - i,
    {
        let mut line = String::from_str("- ");
        line.append(crate::item::make_link(child_names[i].as_str()).as_str());
        lines.push(line);
        i += 1;
    }
    assert(views(lines@) =~= views(child_names@).map_values(|name: Seq<char>| child_line(name)));
    lines
}

fn image_lines(image_ids: &Vec<String>) -> (r: Vec<String>)
    ensures
        views(r@) == views(image_ids@).map_values(|id: Seq<char>| image_token(id)),
{
    let mut lines: Vec<String> = Vec::new();
    let mut i: usize = 0;
    while i < image_ids.len()
        invariant
            i <= image_ids.len(),
            lines@.len() == i,
            forall|k: int| 0 <= k < i ==> lines@[k]@ == image_token(image_ids@[k]@),
        decreases image_ids.len() - i,
    {
        let mut line = String::from_str("![[");
        line.append(image_ids[i].as_str());
        line.append(".png]]");
        lines.push(line);
        i += 1;
    }
    assert(views(lines@) =~= views(image_ids@).map_values(|id: Seq<char>| image_token(id)));
    lines
}

/// The text of the note of `item`, given its metadata block and the note
/// names of its children.
pub fn compose_note(header: &str, item: &Item, child_names: &Vec<String>) -> (r: String)
    ensures
        r@ == note_text(header@, item@, views(child_names@)),
{
    let mut blocks: Vec<String> = Vec::new();
    blocks.push(String::from_str(header));
    assert(views(blocks@) =~= seq![header@]);
    let ghost b1 = views(blocks@);
    match &item.given_title {
        Some(title) => {
            let mut line = String::from_str("# ");
            line.append(title.as_str());
            blocks.push(line);
        },
        None => {},
    }
    let ghost b2 = views(blocks@);
    assert(b2 =~= b1 + optional_block(
        match item@.given_title {
            Some(title) => Some(heading(title)),
            None => None,
        },
    ));
    match &item.margin_note_id {
        Some(id) => {
            let mut line = String::from_str("> [source](");
            let mut url = String::from_str("marginnote3app://note/");
            url.append(id.as_str());
            line.append(url.as_str());
            line.append(")");
            blocks.push(line);
        },
        None => {},
    }
    let ghost b3 = views(blocks@);
    assert(b3 =~= b2 + optional_block(
        match item@.margin_note_id {
            Some(id) => Some(source_line(id)),
            None => None,
        },
    ));
    let links = child_lines(child_names);
    blocks.push(join_strings(&links, "\n"));
    let ghost b4 = views(blocks@);
    assert(b4 =~= b3 + seq![
        join(views(child_names@).map_values(|name: Seq<char>| child_line(name)), "\n"@),
    ]);
    match &item.comments {
        Some(text) => {
            blocks.push(text.clone());
        },
        None => {},
    }
    let ghost b5 = views(blocks@);
    assert(b5 =~= b4 + optional_block(item@.comments));
    let images = image_lines(&item.image_ids);
    blocks.push(join_strings(&images, "\n"));
    assert(views(blocks@) =~= b5 + seq![
        join(item@.image_ids.map_values(|id: Seq<char>| image_token(id)), "\n"@),
    ]);
    join_strings(&blocks, "\n\n")
}

} // verus!
