//! The extractor: it walks the outline document with the queries of a
//! schema and builds the forest of items.

use vstd::prelude::*;
use vstd::string::StringExecFns;
use sxd_document::Package;
use sxd_xpath::nodeset::Node;
use crate::notes::ExtractedNotes;
use crate::item::{Item, ItemView};
use crate::query::{
    document_root, evaluate_query, is_document, is_plain_query, is_query, node_string, node_text,
    nodes_of, parse_document, plain_query, query_compiles, query_value, root_node, text_of,
    value_nodes, value_text,
};
use crate::reading::{
    choose_title, collect_comments, collect_image_ids, comment_of, id_of, url_and_id, well_read,
    ExtractError, TitleChoice,
};
use crate::text::{opt_view, regex_replace_all, regex_replaced, views};
use crate::title::{normalized, single_spaced, tight};

verus! {

/// The queries that find the items of an outline and what belongs to each,
/// the namespace that their prefix stands for, and how deep the outline is
/// followed.
pub struct OutlineSchema {
    pub namespace_prefix: String,
    pub namespace_uri: String,
    /// From the document root to the top-level items.
    pub root_items: String,
    /// From an item to the text of its title cell: a string.
    pub title: String,
    /// From an item to the reference address of its annotation.
    pub margin_note_url: String,
    /// From an item to the items directly below it.
    pub children: String,
    /// From an item to the image references of its content cells.
    pub cell_images: String,
    /// From an item to the image references of its note.
    pub note_images: String,
    /// From an item to the literal texts of its note.
    pub comments: String,
    /// The number of levels that are read; a deeper outline is refused.
    pub max_depth: usize,
}

/// The schema is that of OmniOutliner documents that hold margin notes.
pub open spec fn is_omni_outliner(schema: OutlineSchema) -> bool {
    &&& schema.namespace_prefix@ == "o"@
    &&& schema.namespace_uri@ == "http://www.omnigroup.com/namespace/OmniOutliner/v3"@
    &&& schema.root_items@ == "/o:outline/o:root/o:item"@
    &&& schema.title@ == "string(./o:values/o:text[1]/o:p/o:run/o:lit/text())"@
    &&& schema.margin_note_url@ == "./o:values/o:text[4]/o:p[2]/o:run/o:lit/o:cell/@href"@
    &&& schema.children@ == "o:children/o:item"@
    &&& schema.cell_images@ == "./o:values//o:cell/@refid"@
    &&& schema.note_images@ == "./o:note//o:cell/@refid"@
    &&& schema.comments@ == "./o:note//o:p//o:lit/text()"@
    &&& schema.max_depth == usize::MAX
}

impl OutlineSchema {
    /// Every query of the schema is plain for the schema's prefix.
    pub open spec fn plain(&self) -> bool {
        &&& plain_query(self.root_items@, self.namespace_prefix@)
        &&& plain_query(self.title@, self.namespace_prefix@)
        &&& plain_query(self.margin_note_url@, self.namespace_prefix@)
        &&& plain_query(self.children@, self.namespace_prefix@)
        &&& plain_query(self.cell_images@, self.namespace_prefix@)
        &&& plain_query(self.note_images@, self.namespace_prefix@)
        &&& plain_query(self.comments@, self.namespace_prefix@)
    }

    /// Whether the schema is plain.
    pub fn is_plain(&self) -> (r: bool)
        ensures
            r == self.plain(),
    {
        let prefix = self.namespace_prefix.as_str();
        is_plain_query(self.root_items.as_str(), prefix) && is_plain_query(
            self.title.as_str(),
            prefix,
        ) && is_plain_query(self.margin_note_url.as_str(), prefix) && is_plain_query(
            self.children.as_str(),
            prefix,
        ) && is_plain_query(self.cell_images.as_str(), prefix) && is_plain_query(
            self.note_images.as_str(),
            prefix,
        ) && is_plain_query(self.comments.as_str(), prefix)
    }

    /// Every query of the schema compiles.
    pub open spec fn compilable(&self) -> bool {
        &&& is_query(self.root_items@)
        &&& is_query(self.title@)
        &&& is_query(self.margin_note_url@)
        &&& is_query(self.children@)
        &&& is_query(self.cell_images@)
        &&& is_query(self.note_images@)
        &&& is_query(self.comments@)
    }

    /// Whether every query of the schema compiles.
    pub fn compiles(&self) -> (r: bool)
        ensures
            r == self.compilable(),
    {
        query_compiles(self.root_items.as_str()) && query_compiles(self.title.as_str())
            && query_compiles(self.margin_note_url.as_str()) && query_compiles(
            self.children.as_str(),
        ) && query_compiles(self.cell_images.as_str()) && query_compiles(
            self.note_images.as_str(),
        ) && query_compiles(self.comments.as_str())
    }

    /// The schema of OmniOutliner documents that hold margin notes.
    pub fn omni_outliner() -> (r: OutlineSchema)
        ensures
            is_omni_outliner(r),
            r.plain(),
    {
        proof {
            reveal_strlit("o");
            reveal_strlit("/o:outline/o:root/o:item");
            reveal_strlit("string(./o:values/o:text[1]/o:p/o:run/o:lit/text())");
            reveal_strlit("./o:values/o:text[4]/o:p[2]/o:run/o:lit/o:cell/@href");
            reveal_strlit("o:children/o:item");
            reveal_strlit("./o:values//o:cell/@refid");
            reveal_strlit("./o:note//o:cell/@refid");
            reveal_strlit("./o:note//o:p//o:lit/text()");
        }
        OutlineSchema {
            namespace_prefix: String::from_str("o"),
            namespace_uri: String::from_str("http://www.omnigroup.com/namespace/OmniOutliner/v3"),
            root_items: String::from_str("/o:outline/o:root/o:item"),
            title: String::from_str("string(./o:values/o:text[1]/o:p/o:run/o:lit/text())"),
            margin_note_url: String::from_str(
                "./o:values/o:text[4]/o:p[2]/o:run/o:lit/o:cell/@href",
            ),
            children: String::from_str("o:children/o:item"),
            cell_images: String::from_str("./o:values//o:cell/@refid"),
            note_images: String::from_str("./o:note//o:cell/@refid"),
            comments: String::from_str("./o:note//o:p//o:lit/text()"),
            max_depth: usize::MAX,
        }
    }
}

/// Reads the items of an outline document.
pub struct MarginNotesExtractor {
    schema: OutlineSchema,
    notes: ExtractedNotes,
}

/// `after` holds the items of `before` at their positions, with the parents
/// they had, and the top-level positions of `before` first among its own.
pub open spec fn extends(before: ExtractedNotes, after: ExtractedNotes) -> bool {
    &&& before.count() <= after.count()
    &&& forall|p: int|
        before.has(p) ==> #[trigger] after.item_at(p) == before.item_at(p) && after.parent_of(p)
            == before.parent_of(p)
    &&& before.roots@.is_prefix_of(after.roots@)
}

/// An error that reading the items of a document can end in.
pub open spec fn is_reading_error(e: ExtractError) -> bool {
    ||| e == ExtractError::Query
    ||| e == ExtractError::Schema
    ||| e == ExtractError::Untitled
    ||| e == ExtractError::TooDeep
    ||| e == ExtractError::TooLarge
}

/// Every item that `after` has beyond those of `before` is as the extractor
/// reads items.
pub open spec fn read_since(before: ExtractedNotes, after: ExtractedNotes) -> bool {
    forall|p: int| before.count() < p <= after.count() ==> well_read(#[trigger] after.item_at(p))
}

/// A position as a number, where there is one.
pub open spec fn position_of(parent: Option<usize>) -> Option<int> {
    match parent {
        Some(q) => Some(q as int),
        None => None,
    }
}

/// Positions as numbers.
pub open spec fn positions_of(positions: Seq<usize>) -> Seq<int> {
    positions.map_values(|p: usize| p as int)
}

/// Every item that `after` has beyond those of `before` hangs below another
/// such item or directly below `parent`; it is top-level only where there is
/// no `parent`.
pub open spec fn grown_under(before: ExtractedNotes, after: ExtractedNotes, parent: Option<int>) -> bool {
    forall|p: int|
        before.count() < p <= after.count() ==> match #[trigger] after.parent_of(p) {
            Some(q) => before.count() < q || Some(q) == parent,
            None => parent.is_none(),
        }
}

/// Every item after `position` hangs below the item at `position` or below
/// an item after it.
pub open spec fn hangs_below(after: ExtractedNotes, position: int) -> bool {
    forall|p: int|
        position < p <= after.count() ==> match #[trigger] after.parent_of(p) {
            Some(q) => position <= q,
            None => false,
        }
}

/// The child lists of the items of `before` are as they were, but that of
/// `parent` has `added` at its end.
pub open spec fn children_kept(
    before: ExtractedNotes,
    after: ExtractedNotes,
    parent: Option<int>,
    added: Seq<int>,
) -> bool {
    forall|p: int|
        before.has(p) ==> #[trigger] after.children_of(p) == if parent == Some(p) {
            before.children_of(p) + added
        } else {
            before.children_of(p)
        }
}

/// The positions are those of items that `after` has beyond those of
/// `before`, in increasing order, each directly below `parent`; the first
/// of them is the first new item, and without them there is no new item.
pub open spec fn new_in_order(
    before: ExtractedNotes,
    after: ExtractedNotes,
    positions: Seq<usize>,
    parent: Option<int>,
) -> bool {
    &&& forall|k: int|
        0 <= k < positions.len() ==> before.count() < #[trigger] positions[k] <= after.count()
            && after.parent_of(positions[k] as int) == parent
    &&& forall|j: int, k: int|
        0 <= j < k < positions.len() ==> #[trigger] positions[j] < #[trigger] positions[k]
    &&& positions.len() > 0 ==> positions[0] == before.count() as int + 1
    &&& positions.len() == 0 ==> after.count() == before.count()
}

/// What a query gave, where it gave a value of the kind that was asked for;
/// the error for a value of another kind, and the error for a query that
/// could not be evaluated.
pub fn found_or_error<T>(outcome: Result<Option<T>, sxd_xpath::Error>) -> (r: Result<T, ExtractError>)
    ensures
        r == match outcome {
            Ok(Some(found)) => Ok::<T, ExtractError>(found),
            Ok(None) => Err::<T, ExtractError>(ExtractError::Schema),
            Err(_) => Err::<T, ExtractError>(ExtractError::Query),
        },
{
    match outcome {
        Ok(Some(found)) => Ok(found),
        Ok(None) => Err(ExtractError::Schema),
        Err(_) => Err(ExtractError::Query),
    }
}

/// The first of the texts, if there is any.
pub fn first_text(texts: Vec<String>) -> (r: Option<String>)
    ensures
        crate::text::opt_view(r) == if texts@.len() > 0 {
            Some(texts@[0]@)
        } else {
            None
        },
{
    let mut texts = texts;
    if texts.len() > 0 {
        Some(texts.swap_remove(0))
    } else {
        None
    }
}

/// The string values of nodes, in their order.
pub open spec fn strings_of<'d>(nodes: Seq<Node<'d>>) -> Seq<Seq<char>> {
    nodes.map_values(|node: Node<'d>| node_string(node))
}

/// The string values of the nodes, one for each node, in their order.
pub fn node_texts<'d>(nodes: &Vec<Node<'d>>) -> (r: Vec<String>)
    ensures
        views(r@) == strings_of(nodes@),
{
    let mut texts: Vec<String> = Vec::new();
    let mut i: usize = 0;
    while i < nodes.len()
        invariant
            i <= nodes.len(),
            texts@.len() == i,
            forall|k: int| 0 <= k < i ==> texts@[k]@ == node_string(nodes@[k]),
        decreases nodes.len() - i,
    {
        texts.push(node_text(nodes[i]));
        i += 1;
    }
    assert(views(texts@) =~= strings_of(nodes@));
    texts
}

/// The nodes that a query gives at a node, in document order; the error
/// for a query that cannot be evaluated, or that gives no node-set.
pub open spec fn nodes_at<'d>(
    expression: Seq<char>,
    prefix: Seq<char>,
    uri: Seq<char>,
    node: Node<'d>,
) -> Result<Seq<Node<'d>>, ExtractError> {
    match query_value(expression, prefix, uri, node) {
        None => Err(ExtractError::Query),
        Some(value) => match nodes_of(value) {
            None => Err(ExtractError::Schema),
            Some(nodes) => Ok(nodes),
        },
    }
}

/// The string values of the nodes that a query gives at a node.
pub open spec fn strings_at<'d>(
    expression: Seq<char>,
    prefix: Seq<char>,
    uri: Seq<char>,
    node: Node<'d>,
) -> Result<Seq<Seq<char>>, ExtractError> {
    match nodes_at(expression, prefix, uri, node) {
        Ok(nodes) => Ok(strings_of(nodes)),
        Err(e) => Err(e),
    }
}

/// The text that a query gives at a node; the error for a query that
/// cannot be evaluated, or that gives no string.
pub open spec fn text_at<'d>(
    expression: Seq<char>,
    prefix: Seq<char>,
    uri: Seq<char>,
    node: Node<'d>,
) -> Result<Seq<char>, ExtractError> {
    match query_value(expression, prefix, uri, node) {
        None => Err(ExtractError::Query),
        Some(value) => match text_of(value) {
            None => Err(ExtractError::Schema),
            Some(text) => Ok(text),
        },
    }
}

/// The first of the texts, if there is any.
pub open spec fn first_of(texts: Seq<Seq<char>>) -> Option<Seq<char>> {
    if texts.len() > 0 {
        Some(texts[0])
    } else {
        None
    }
}

/// The item that the queries of a schema read at a node. The address is
/// read first, then the title, the images of the cells, the images of the
/// note and the texts of the note; the first reading that fails gives the
/// error, and a node without title and without address is an error.
pub open spec fn reading_at<'d>(schema: OutlineSchema, node: Node<'d>) -> Result<
    ItemView,
    ExtractError,
> {
    let p = schema.namespace_prefix@;
    let u = schema.namespace_uri@;
    match strings_at(schema.margin_note_url@, p, u, node) {
        Err(e) => Err(e),
        Ok(addresses) => match text_at(schema.title@, p, u, node) {
            Err(e) => Err(e),
            Ok(raw) => if normalized(raw).len() == 0 && first_of(addresses).is_none() {
                Err(ExtractError::Untitled)
            } else {
                match strings_at(schema.cell_images@, p, u, node) {
                    Err(e) => Err(e),
                    Ok(cells) => match strings_at(schema.note_images@, p, u, node) {
                        Err(e) => Err(e),
                        Ok(notes) => match strings_at(schema.comments@, p, u, node) {
                            Err(e) => Err(e),
                            Ok(texts) => Ok(
                                ItemView {
                                    given_title: if normalized(raw).len() > 0 {
                                        Some(normalized(raw))
                                    } else {
                                        None
                                    },
                                    margin_note_id: id_of(first_of(addresses)),
                                    image_ids: cells + notes,
                                    comments: comment_of(texts),
                                },
                            ),
                        },
                    },
                }
            },
        },
    }
}

/// One item that reading a document adds to the forest: what it holds,
/// the position of its parent, and the positions of its children.
pub struct Planted {
    pub item: ItemView,
    pub parent: Option<int>,
    pub children: Seq<int>,
}

/// What reading some nodes adds to the forest: the items, in the order of
/// their positions, and the positions of the items of the nodes themselves.
pub struct Growth {
    pub planted: Seq<Planted>,
    pub tops: Seq<int>,
}

/// What reading a node adds to the forest when its item comes to stand at
/// `position` under `parent`: the item of the node, then what the nodes below
/// it add. A node at depth 0 is too deep; then the readings of the node
/// decide, then the room that is left in the forest, then the nodes below.
pub open spec fn subtree_at<'d>(
    schema: OutlineSchema,
    node: Node<'d>,
    parent: Option<int>,
    position: int,
    depth: nat,
) -> Result<Seq<Planted>, ExtractError>
    decreases depth, 0nat,
{
    if depth == 0 {
        Err(ExtractError::TooDeep)
    } else {
        match reading_at(schema, node) {
            Err(e) => Err(e),
            Ok(item) => if position > usize::MAX {
                Err(ExtractError::TooLarge)
            } else {
                match nodes_at(
                    schema.children@,
                    schema.namespace_prefix@,
                    schema.namespace_uri@,
                    node,
                ) {
                    Err(e) => Err(e),
                    Ok(below) => match forest_at(
                        schema,
                        below,
                        Some(position),
                        position + 1,
                        (depth - 1) as nat,
                    ) {
                        Err(e) => Err(e),
                        Ok(growth) => Ok(
                            seq![Planted { item, parent, children: growth.tops }] + growth.planted,
                        ),
                    },
                }
            },
        }
    }
}

/// What reading nodes one after another adds to the forest when the first
/// new item comes to stand at `first` and the items of the nodes stand under
/// `parent`. The first node that cannot be read gives the error.
pub open spec fn forest_at<'d>(
    schema: OutlineSchema,
    nodes: Seq<Node<'d>>,
    parent: Option<int>,
    first: int,
    depth: nat,
) -> Result<Growth, ExtractError>
    decreases depth, nodes.len() + 1,
{
    if nodes.len() == 0 {
        Ok(Growth { planted: Seq::empty(), tops: Seq::empty() })
    } else {
        match forest_at(schema, nodes.drop_last(), parent, first, depth) {
            Err(e) => Err(e),
            Ok(before) => match subtree_at(
                schema,
                nodes.last(),
                parent,
                first + before.planted.len(),
                depth,
            ) {
                Err(e) => Err(e),
                Ok(last) => Ok(
                    Growth {
                        planted: before.planted + last,
                        tops: before.tops.push(first + before.planted.len()),
                    },
                ),
            },
        }
    }
}

/// What reading a document adds to the forest when the first new item comes
/// to stand at `first`: what its top-level nodes add, where the query for
/// them gives nodes.
pub open spec fn outline_at(schema: OutlineSchema, package: &Package, first: int) -> Result<
    Growth,
    ExtractError,
> {
    match nodes_at(
        schema.root_items@,
        schema.namespace_prefix@,
        schema.namespace_uri@,
        root_node(package),
    ) {
        Err(e) => Err(e),
        Ok(nodes) => forest_at(schema, nodes, None, first, schema.max_depth as nat),
    }
}

/// The items after the first `start` items of the forest are the planted
/// ones, with their parents and their children.
pub open spec fn planted_in(after: ExtractedNotes, start: int, planted: Seq<Planted>) -> bool {
    &&& after.count() == start + planted.len()
    &&& forall|k: int|
        0 <= k < planted.len() ==> {
            let entry = #[trigger] planted[k];
            &&& after.item_at(start + 1 + k) == entry.item
            &&& after.parent_of(start + 1 + k) == entry.parent
            &&& after.children_of(start + 1 + k) == entry.children
        }
}

/// The pattern that matches the document type declaration of an outline.
pub open spec fn doctype_pattern() -> Seq<char> {
    "<!DOCTYPE outline PUBLIC \"-//omnigroup.com//DTD OUTLINE 3.0//EN\" \"http://www.omnigroup.com/namespace/OmniOutliner/xmloutline-v3.dtd\">"@
}

/// The markup of an outline with its document type declaration left out.
pub open spec fn without_doctype(xml: Seq<char>) -> Option<Seq<char>> {
    regex_replaced(doctype_pattern(), xml, Seq::empty())
}

/// What reading the markup of an outline ends in: a document, or the error
/// that says why there is none.
pub open spec fn parse_outcome(xml: Seq<char>) -> Result<(), ExtractError> {
    match without_doctype(xml) {
        Some(text) => if is_document(text) {
            Ok(())
        } else {
            Err(ExtractError::Parse)
        },
        None => Err(ExtractError::Pattern),
    }
}

/// The document that an outline file holds, with its document type
/// declaration left out; an error where the text is not well-formed XML.
pub fn parse_xml(xml: &str) -> (r: Result<Package, ExtractError>)
    ensures
        match r {
            Ok(_) => parse_outcome(xml@).is_ok(),
            Err(e) => parse_outcome(xml@) == Err::<(), ExtractError>(e),
        },
{
    proof {
        reveal_strlit("");
        assert(""@ =~= Seq::<char>::empty());
    }
    let cleaned = regex_replace_all(
        "<!DOCTYPE outline PUBLIC \"-//omnigroup.com//DTD OUTLINE 3.0//EN\" \"http://www.omnigroup.com/namespace/OmniOutliner/xmloutline-v3.dtd\">",
        xml,
        "",
    );
    match cleaned {
        Some(text) => match parse_document(text.as_str()) {
            Ok(package) => Ok(package),
            Err(_) => Err(ExtractError::Parse),
        },
        None => Err(ExtractError::Pattern),
    }
}

impl MarginNotesExtractor {
    /// The forest built so far is in order, and the schema is plain.
    pub closed spec fn wf(&self) -> bool {
        self.notes.wf() && self.schema.plain()
    }

    /// The forest built so far.
    pub closed spec fn built(&self) -> ExtractedNotes {
        self.notes
    }

    /// The schema whose queries read the documents.
    pub closed spec fn schema(&self) -> OutlineSchema {
        self.schema
    }

    /// An extractor with the queries of `schema` and no items yet; an error
    /// where the schema is not plain or one of its queries does not compile.
    pub fn with_schema(schema: OutlineSchema) -> (r: Result<MarginNotesExtractor, ExtractError>)
        ensures
            r.is_ok() == (schema.plain() && schema.compilable()),
            match r {
                Ok(extractor) => {
                    &&& extractor.wf()
                    &&& extractor.schema() == schema
                    &&& extractor.built().wf()
                    &&& extractor.built().count() == 0
                    &&& extractor.built().roots@.len() == 0
                },
                Err(e) => e == ExtractError::Pattern,
            },
    {
        if !schema.is_plain() || !schema.compiles() {
            return Err(ExtractError::Pattern);
        }
        Ok(MarginNotesExtractor { schema, notes: ExtractedNotes::new() })
    }

    /// An extractor for OmniOutliner documents, with no items yet; an error
    /// where a query of their schema does not compile.
    pub fn new() -> (r: Result<MarginNotesExtractor, ExtractError>)
        ensures
            r.is_ok() == (is_query("/o:outline/o:root/o:item"@) && is_query(
                "string(./o:values/o:text[1]/o:p/o:run/o:lit/text())"@,
            ) && is_query("./o:values/o:text[4]/o:p[2]/o:run/o:lit/o:cell/@href"@) && is_query(
                "o:children/o:item"@,
            ) && is_query("./o:values//o:cell/@refid"@) && is_query("./o:note//o:cell/@refid"@)
                && is_query("./o:note//o:p//o:lit/text()"@)),
            match r {
                Ok(extractor) => {
                    &&& extractor.wf()
                    &&& is_omni_outliner(extractor.schema())
                    &&& extractor.built().wf()
                    &&& extractor.built().count() == 0
                    &&& extractor.built().roots@.len() == 0
                },
                Err(e) => e == ExtractError::Pattern,
            },
    {
        MarginNotesExtractor::with_schema(OutlineSchema::omni_outliner())
    }

    /// The forest built so far, which holds the items that were read before
    /// a reading failed.
    pub fn notes(&self) -> (r: &ExtractedNotes)
        ensures
            *r == self.built(),
    {
        &self.notes
    }

    /// The forest built so far, given up by the extractor.
    pub fn into_notes(self) -> (r: ExtractedNotes)
        ensures
            r == self.built(),
    {
        self.notes
    }

    /// The items of the document, added to the forest built so far: what
    /// the queries of the schema read at the nodes of the document, each
    /// top-level item followed by all that is below it.
    pub fn read_items(self, package: Package) -> (r: Result<ExtractedNotes, ExtractError>)
        requires
            self.wf(),
        ensures
            match outline_at(self.schema(), &package, self.built().count() as int + 1) {
                Ok(growth) => match r {
                    Ok(notes) => {
                        &&& notes.wf()
                        &&& planted_in(notes, self.built().count() as int, growth.planted)
                        &&& positions_of(notes.roots@) == positions_of(self.built().roots@)
                            + growth.tops
                        &&& extends(self.built(), notes)
                        &&& read_since(self.built(), notes)
                    },
                    Err(_) => false,
                },
                Err(e) => r matches Err(x) && x == e,
            },
            r matches Err(e) ==> is_reading_error(e),
    {
        let mut extractor = self;
        match extractor.root_items(package) {
            Ok(roots) => {
                proof {
                    assert(positions_of(extractor.notes.roots@) =~= positions_of(self.notes.roots@)
                        + positions_of(roots@));
                }
                Ok(extractor.notes)
            },
            Err(e) => Err(e),
        }
    }

    /// Reads the top-level items of the document with all that is below
    /// them, and returns their positions in document order. The new items
    /// follow the ones already there: each top-level item is followed by all
    /// that is below it, and nothing is added below an item that was there.
    pub fn root_items(&mut self, package: Package) -> (r: Result<Vec<usize>, ExtractError>)
        requires
            old(self).wf(),
        ensures
            final(self).wf(),
            final(self).built().wf(),
            final(self).schema() == old(self).schema(),
            match outline_at(old(self).schema(), &package, old(self).built().count() as int + 1) {
                Ok(growth) => match r {
                    Ok(roots) => {
                        &&& positions_of(roots@) == growth.tops
                        &&& planted_in(
                            final(self).built(),
                            old(self).built().count() as int,
                            growth.planted,
                        )
                        &&& extends(old(self).built(), final(self).built())
                        &&& read_since(old(self).built(), final(self).built())
                        &&& final(self).built().roots@ == old(self).built().roots@ + roots@
                        &&& new_in_order(old(self).built(), final(self).built(), roots@, None)
                        &&& grown_under(old(self).built(), final(self).built(), None)
                        &&& children_kept(
                            old(self).built(),
                            final(self).built(),
                            None,
                            positions_of(roots@),
                        )
                    },
                    Err(_) => false,
                },
                Err(e) => r matches Err(x) && x == e,
            },
            r matches Err(e) ==> is_reading_error(e),
    {
        let root = document_root(&package);
        let nodes = self.query_nodes(self.schema.root_items.as_str(), root)?;
        let depth: usize = self.schema.max_depth;
        self.create_items(&nodes, None, depth)
    }

    /// Adds the items of the nodes, in their order, each directly under
    /// `parent` and each followed by the items of the nodes below it, and
    /// returns their positions: one for each node.
    fn create_items<'d>(&mut self, nodes: &Vec<Node<'d>>, parent: Option<usize>, depth: usize) -> (r:
        Result<Vec<usize>, ExtractError>)
        requires
            old(self).wf(),
            match parent {
                Some(q) => old(self).built().has(q as int),
                None => true,
            },
        ensures
            final(self).wf(),
            final(self).schema == old(self).schema,
            match forest_at(
                old(self).schema,
                nodes@,
                position_of(parent),
                old(self).built().count() as int + 1,
                depth as nat,
            ) {
                Ok(growth) => match r {
                    Ok(positions) => {
                        &&& positions_of(positions@) == growth.tops
                        &&& planted_in(
                            final(self).built(),
                            old(self).built().count() as int,
                            growth.planted,
                        )
                        &&& positions@.len() == nodes@.len()
                        &&& extends(old(self).built(), final(self).built())
                        &&& read_since(old(self).built(), final(self).built())
                        &&& final(self).built().roots@ == match parent {
                            Some(_) => old(self).built().roots@,
                            None => old(self).built().roots@ + positions@,
                        }
                        &&& new_in_order(
                            old(self).built(),
                            final(self).built(),
                            positions@,
                            position_of(parent),
                        )
                        &&& grown_under(
                            old(self).built(),
                            final(self).built(),
                            position_of(parent),
                        )
                        &&& children_kept(
                            old(self).built(),
                            final(self).built(),
                            position_of(parent),
                            positions_of(positions@),
                        )
                    },
                    Err(_) => false,
                },
                Err(e) => r matches Err(x) && x == e,
            },
            r matches Err(e) ==> is_reading_error(e),
        decreases depth, 1int,
    {
        let mut positions: Vec<usize> = Vec::new();
        let mut i: usize = 0;
        let ghost first = old(self).built();
        let ghost schema = old(self).schema;
        let ghost under = position_of(parent);
        proof {
            assert(first.roots@ + positions@ =~= first.roots@);
            assert forall|p: int| first.has(p) implies #[trigger] self.built().children_of(p) == if under
                == Some(p) {
                first.children_of(p) + positions_of(positions@)
            } else {
                first.children_of(p)
            } by {
                assert(first.children_of(p) + positions_of(positions@) =~= first.children_of(p));
            }
            assert(first.roots@.is_prefix_of(self.built().roots@)) by {
                assert(self.built().roots@.subrange(0, self.built().roots@.len() as int)
                    =~= self.built().roots@);
            }
            assert(nodes@.take(0).len() == 0);
            assert(positions_of(positions@) =~= Seq::<int>::empty());
        }
        while i < nodes.len()
            invariant
                self.wf(),
                self.schema == schema,
                schema == old(self).schema,
                first == old(self).built(),
                under == position_of(parent),
                i <= nodes.len(),
                positions@.len() == i,
                match parent {
                    Some(q) => first.has(q as int),
                    None => true,
                },
                forest_at(schema, nodes@.take(i as int), under, first.count() as int + 1, depth as nat)
                    matches Ok(growth) && positions_of(positions@) == growth.tops && planted_in(
                    self.built(),
                    first.count() as int,
                    growth.planted,
                ),
                extends(first, self.built()),
                read_since(first, self.built()),
                self.built().roots@ == match parent {
                    Some(_) => first.roots@,
                    None => first.roots@ + positions@,
                },
                new_in_order(first, self.built(), positions@, under),
                grown_under(first, self.built(), under),
                children_kept(first, self.built(), under, positions_of(positions@)),
            decreases nodes.len() - i,
        {
            let ghost before = self.built();
            let ghost sofar = positions@;
            let ghost done = forest_at(
                schema,
                nodes@.take(i as int),
                under,
                first.count() as int + 1,
                depth as nat,
            ).unwrap();
            proof {
                assert(nodes@.take(i + 1).drop_last() =~= nodes@.take(i as int));
                assert(nodes@.take(i + 1).last() == nodes@[i as int]);
            }
            match self.create_item(nodes[i], parent, depth) {
                Ok(position) => {
                    positions.push(position);
                    proof {
                        let after = self.built();
                        let last = subtree_at(
                            schema,
                            nodes@[i as int],
                            under,
                            before.count() as int + 1,
                            depth as nat,
                        ).unwrap();
                        lemma_extends_trans(first, before, after);
                        lemma_grown(first, before, after, sofar, position, under);
                        lemma_planted_more(before, after, first.count() as int, done.planted, last, under);
                        assert(positions@ == sofar.push(position));
                        assert(positions_of(positions@) =~= done.tops.push(position as int));
                        match parent {
                            Some(_) => {},
                            None => {
                                assert(first.roots@ + sofar.push(position) =~= (first.roots@
                                    + sofar).push(position));
                            },
                        }
                    }
                },
                Err(e) => {
                    proof {
                        lemma_forest_fails(
                            schema,
                            nodes@,
                            under,
                            first.count() as int + 1,
                            depth as nat,
                            i + 1,
                        );
                    }
                    return Err(e);
                },
            }
            i += 1;
        }
        proof {
            assert(nodes@.take(nodes@.len() as int) =~= nodes@);
        }
        Ok(positions)
    }

    fn query_nodes<'d>(&self, expression: &str, node: Node<'d>) -> (r: Result<
        Vec<Node<'d>>,
        ExtractError,
    >)
        requires
            plain_query(expression@, self.schema.namespace_prefix@),
        ensures
            match nodes_at(
                expression@,
                self.schema.namespace_prefix@,
                self.schema.namespace_uri@,
                node,
            ) {
                Ok(nodes) => r matches Ok(found) && found@ == nodes,
                Err(e) => r matches Err(x) && x == e,
            },
    {
        let outcome = match evaluate_query(
            expression,
            self.schema.namespace_prefix.as_str(),
            self.schema.namespace_uri.as_str(),
            node,
        ) {
            Ok(value) => Ok(value_nodes(&value)),
            Err(e) => Err(e),
        };
        found_or_error(outcome)
    }

    fn query_strings<'d>(&self, expression: &str, node: Node<'d>) -> (r: Result<
        Vec<String>,
        ExtractError,
    >)
        requires
            plain_query(expression@, self.schema.namespace_prefix@),
        ensures
            match strings_at(
                expression@,
                self.schema.namespace_prefix@,
                self.schema.namespace_uri@,
                node,
            ) {
                Ok(texts) => r matches Ok(found) && views(found@) == texts,
                Err(e) => r matches Err(x) && x == e,
            },
    {
        let nodes = self.query_nodes(expression, node)?;
        Ok(node_texts(&nodes))
    }

    fn query_text<'d>(&self, expression: &str, node: Node<'d>) -> (r: Result<String, ExtractError>)
        requires
            plain_query(expression@, self.schema.namespace_prefix@),
        ensures
            match text_at(
                expression@,
                self.schema.namespace_prefix@,
                self.schema.namespace_uri@,
                node,
            ) {
                Ok(text) => r matches Ok(found) && found@ == text,
                Err(e) => r matches Err(x) && x == e,
            },
    {
        let outcome = match evaluate_query(
            expression,
            self.schema.namespace_prefix.as_str(),
            self.schema.namespace_uri.as_str(),
            node,
        ) {
            Ok(value) => Ok(value_text(&value)),
            Err(e) => Err(e),
        };
        found_or_error(outcome)
    }

    /// The reference address of a node and the identifier it carries: the
    /// first address that the query gives, if it gives any.
    fn extract_margin_note_url_and_id<'d>(&self, node: Node<'d>) -> (r: Result<
        (Option<String>, Option<String>),
        ExtractError,
    >)
        requires
            self.wf(),
        ensures
            match strings_at(
                self.schema.margin_note_url@,
                self.schema.namespace_prefix@,
                self.schema.namespace_uri@,
                node,
            ) {
                Ok(addresses) => r matches Ok(pair) && opt_view(pair.0) == first_of(addresses)
                    && opt_view(pair.1) == id_of(first_of(addresses)),
                Err(e) => r matches Err(x) && x == e,
            },
    {
        let addresses = self.query_strings(self.schema.margin_note_url.as_str(), node)?;
        Ok(url_and_id(first_text(addresses)))
    }

    /// Adds the item of `node` under `parent`, then the items of the nodes
    /// below it, and returns the position of the item of `node`.
    fn create_item<'d>(&mut self, node: Node<'d>, parent: Option<usize>, depth: usize) -> (r: Result<
        usize,
        ExtractError,
    >)
        requires
            old(self).wf(),
            match parent {
                Some(q) => old(self).built().has(q as int),
                None => true,
            },
        ensures
            final(self).wf(),
            final(self).schema == old(self).schema,
            match subtree_at(
                old(self).schema,
                node,
                position_of(parent),
                old(self).built().count() as int + 1,
                depth as nat,
            ) {
                Ok(planted) => match r {
                    Ok(position) => {
                        &&& position == old(self).built().count() as int + 1
                        &&& planted_in(
                            final(self).built(),
                            old(self).built().count() as int,
                            planted,
                        )
                        &&& extends(old(self).built(), final(self).built())
                        &&& read_since(old(self).built(), final(self).built())
                        &&& final(self).built().has(position as int)
                        &&& final(self).built().roots@ == match parent {
                            Some(_) => old(self).built().roots@,
                            None => old(self).built().roots@.push(position),
                        }
                        &&& final(self).built().parent_of(position as int) == position_of(parent)
                        &&& hangs_below(final(self).built(), position as int)
                        &&& children_kept(
                            old(self).built(),
                            final(self).built(),
                            position_of(parent),
                            seq![position as int],
                        )
                    },
                    Err(_) => false,
                },
                Err(e) => r matches Err(x) && x == e,
            },
            r matches Err(e) ==> is_reading_error(e),
        decreases depth, 0int,
    {
        if depth == 0 {
            return Err(ExtractError::TooDeep);
        }
        let (_, margin_note_id) = self.extract_margin_note_url_and_id(node)?;
        let choice = self.extract_title(node, &margin_note_id)?;
        let image_ids = self.extract_image_ids(node)?;
        let comments = self.extract_comments(node)?;
        let item = Item { given_title: choice.given_title, margin_note_id, image_ids, comments };
        proof {
            assert(reading_at(self.schema, node) == Ok::<ItemView, ExtractError>(item@));
        }
        if self.notes.len() == usize::MAX {
            return Err(ExtractError::TooLarge);
        }
        let ghost read = item@;
        let position = match parent {
            Some(q) => self.notes.add_child(q, item),
            None => self.notes.add_root(item),
        };
        let ghost first = old(self).built();
        let ghost start = self.built();
        proof {
            assert(first.roots@.is_prefix_of(start.roots@)) by {
                assert(start.roots@.subrange(0, first.roots@.len() as int) =~= first.roots@);
            }
        }
        let children = self.query_nodes(self.schema.children.as_str(), node)?;
        let below = self.create_items(&children, Some(position), depth - 1)?;
        proof {
            let last = self.built();
            let growth = forest_at(
                self.schema,
                children@,
                Some(position as int),
                position + 1,
                (depth - 1) as nat,
            ).unwrap();
            let planted = seq![
                Planted { item: read, parent: position_of(parent), children: growth.tops },
            ] + growth.planted;
            assert(last.item_at(position as int) == start.item_at(position as int));
            lemma_extends_trans(first, start, last);
            assert forall|p: int| position < p <= last.count() implies match #[trigger] last.parent_of(
                p,
            ) {
                Some(q) => position <= q,
                None => false,
            } by {
                assert(start.count() < p <= last.count());
            }
            assert forall|p: int| first.has(p) implies #[trigger] last.children_of(p) == if position_of(
                parent,
            ) == Some(p) {
                first.children_of(p) + seq![position as int]
            } else {
                first.children_of(p)
            } by {
                assert(start.has(p));
                assert(p != position);
                assert(last.children_of(p) == start.children_of(p));
                if position_of(parent) == Some(p) {
                    assert(first.children_of(p).push(position as int) =~= first.children_of(p)
                        + seq![position as int]);
                }
            }
            assert(start.has(position as int));
            assert(last.children_of(position as int) == start.children_of(position as int)
                + growth.tops);
            assert(start.children_of(position as int) + growth.tops =~= growth.tops);
            assert forall|k: int| 0 <= k < planted.len() implies {
                let entry = #[trigger] planted[k];
                &&& last.item_at(first.count() as int + 1 + k) == entry.item
                &&& last.parent_of(first.count() as int + 1 + k) == entry.parent
                &&& last.children_of(first.count() as int + 1 + k) == entry.children
            } by {
                if k > 0 {
                    assert(planted[k] == growth.planted[k - 1]);
                    assert(first.count() as int + 1 + k == position + 1 + (k - 1));
                }
            }
        }
        Ok(position)
    }

    /// The comment of a node: the literal texts of its note, one after
    /// another; none where the note has no text.
    fn extract_comments<'d>(&self, node: Node<'d>) -> (r: Result<Option<String>, ExtractError>)
        requires
            self.wf(),
        ensures
            match strings_at(
                self.schema.comments@,
                self.schema.namespace_prefix@,
                self.schema.namespace_uri@,
                node,
            ) {
                Ok(texts) => r matches Ok(comment) && opt_view(comment) == comment_of(texts),
                Err(e) => r matches Err(x) && x == e,
            },
    {
        let texts = self.query_strings(self.schema.comments.as_str(), node)?;
        Ok(collect_comments(&texts))
    }

    /// The image references of a node: those of its content cells, then
    /// those of its note.
    fn extract_image_ids<'d>(&self, node: Node<'d>) -> (r: Result<Vec<String>, ExtractError>)
        requires
            self.wf(),
        ensures
            match strings_at(
                self.schema.cell_images@,
                self.schema.namespace_prefix@,
                self.schema.namespace_uri@,
                node,
            ) {
                Err(e) => r matches Err(x) && x == e,
                Ok(cells) => match strings_at(
                    self.schema.note_images@,
                    self.schema.namespace_prefix@,
                    self.schema.namespace_uri@,
                    node,
                ) {
                    Err(e) => r matches Err(x) && x == e,
                    Ok(notes) => r matches Ok(images) && views(images@) == cells + notes,
                },
            },
    {
        let cell_images = self.query_strings(self.schema.cell_images.as_str(), node)?;
        let note_images = self.query_strings(self.schema.note_images.as_str(), node)?;
        Ok(collect_image_ids(&cell_images, &note_images))
    }

    /// The title of a node, given its identifier: the normalized text of
    /// the title cell where that is not empty, else the identifier, and an
    /// error where there is neither.
    fn extract_title<'d>(&self, node: Node<'d>, margin_note_id: &Option<String>) -> (r: Result<
        TitleChoice,
        ExtractError,
    >)
        requires
            self.wf(),
        ensures
            match text_at(
                self.schema.title@,
                self.schema.namespace_prefix@,
                self.schema.namespace_uri@,
                node,
            ) {
                Err(e) => r matches Err(x) && x == e,
                Ok(raw) => if normalized(raw).len() > 0 {
                    r matches Ok(choice) && opt_view(choice.given_title) == Some(normalized(raw))
                        && choice.title@ == normalized(raw) && tight(choice.title@)
                        && single_spaced(choice.title@)
                } else {
                    match *margin_note_id {
                        Some(id) => r matches Ok(choice) && choice.given_title.is_none()
                            && choice.title@ == id@,
                        None => r matches Err(x) && x == ExtractError::Untitled,
                    }
                },
            },
    {
        let raw_title = self.query_text(self.schema.title.as_str(), node)?;
        choose_title(raw_title.as_str(), margin_note_id)
    }
}

/// Where some of the nodes, taken from the first, cannot be read, all of
/// them cannot, and the error is the same.
proof fn lemma_forest_fails<'d>(
    schema: OutlineSchema,
    nodes: Seq<Node<'d>>,
    parent: Option<int>,
    first: int,
    depth: nat,
    k: int,
)
    requires
        0 <= k <= nodes.len(),
        forest_at(schema, nodes.take(k), parent, first, depth).is_err(),
    ensures
        forest_at(schema, nodes, parent, first, depth) == forest_at(
            schema,
            nodes.take(k),
            parent,
            first,
            depth,
        ),
    decreases nodes.len() - k,
{
    if k == nodes.len() {
        assert(nodes.take(k) =~= nodes);
    } else {
        assert(nodes.drop_last().take(k) =~= nodes.take(k));
        lemma_forest_fails(schema, nodes.drop_last(), parent, first, depth, k);
    }
}

/// What is planted after planted items stands with them in the forest,
/// provided that the earlier items are kept as they were.
proof fn lemma_planted_more(
    before: ExtractedNotes,
    after: ExtractedNotes,
    start: int,
    earlier: Seq<Planted>,
    later: Seq<Planted>,
    parent: Option<int>,
)
    requires
        0 <= start,
        planted_in(before, start, earlier),
        planted_in(after, before.count() as int, later),
        extends(before, after),
        children_kept(before, after, parent, seq![before.count() as int + 1]),
        match parent {
            Some(q) => q <= start,
            None => true,
        },
    ensures
        planted_in(after, start, earlier + later),
{
    let all = earlier + later;
    assert forall|k: int| 0 <= k < all.len() implies {
        let entry = #[trigger] all[k];
        &&& after.item_at(start + 1 + k) == entry.item
        &&& after.parent_of(start + 1 + k) == entry.parent
        &&& after.children_of(start + 1 + k) == entry.children
    } by {
        if k < earlier.len() {
            let p = start + 1 + k;
            assert(all[k] == earlier[k]);
            assert(before.has(p));
            assert(after.item_at(p) == before.item_at(p));
            assert(after.children_of(p) == before.children_of(p));
        } else {
            assert(all[k] == later[k - earlier.len()]);
            assert(start + 1 + k == before.count() as int + 1 + (k - earlier.len()));
        }
    }
}

/// One more item with all that is below it, added after items that grew
/// under `parent`, leaves a forest that grew under `parent`.
proof fn lemma_grown(
    first: ExtractedNotes,
    before: ExtractedNotes,
    after: ExtractedNotes,
    sofar: Seq<usize>,
    position: usize,
    parent: Option<int>,
)
    requires
        extends(first, before),
        extends(before, after),
        before.count() < usize::MAX,
        position == before.count() as int + 1,
        after.has(position as int),
        after.parent_of(position as int) == parent,
        hangs_below(after, position as int),
        new_in_order(first, before, sofar, parent),
        grown_under(first, before, parent),
        children_kept(first, before, parent, positions_of(sofar)),
        children_kept(before, after, parent, seq![position as int]),
    ensures
        new_in_order(first, after, sofar.push(position), parent),
        grown_under(first, after, parent),
        children_kept(first, after, parent, positions_of(sofar.push(position))),
{
    let all = sofar.push(position);
    assert forall|k: int| 0 <= k < all.len() implies first.count() < #[trigger] all[k]
        <= after.count() && after.parent_of(all[k] as int) == parent by {
        if k < sofar.len() {
            assert(all[k] == sofar[k]);
            assert(before.has(sofar[k] as int));
            assert(after.item_at(sofar[k] as int) == before.item_at(sofar[k] as int));
        }
    }
    assert forall|j: int, k: int| 0 <= j < k < all.len() implies #[trigger] all[j]
        < #[trigger] all[k] by {
        assert(all[j] == sofar[j]);
        if k < sofar.len() {
            assert(all[k] == sofar[k]);
        }
    }
    if sofar.len() > 0 {
        assert(all[0] == sofar[0]);
    }
    assert forall|p: int| first.count() < p <= after.count() implies match #[trigger] after.parent_of(
        p,
    ) {
        Some(q) => first.count() < q || Some(q) == parent,
        None => parent.is_none(),
    } by {
        if p <= before.count() {
            assert(before.has(p));
            assert(after.item_at(p) == before.item_at(p));
            assert(after.parent_of(p) == before.parent_of(p));
        }
    }
    assert forall|p: int| first.has(p) implies #[trigger] after.children_of(p) == if parent == Some(
        p,
    ) {
        first.children_of(p) + positions_of(all)
    } else {
        first.children_of(p)
    } by {
        assert(before.has(p));
        if parent == Some(p) {
            assert(positions_of(all) =~= positions_of(sofar) + seq![position as int]);
            assert(first.children_of(p) + positions_of(sofar) + seq![position as int]
                =~= first.children_of(p) + positions_of(all));
        }
    }
}

/// Two forests that were planted from nothing with the same items and the
/// same top-level positions are alike in every item, parent, child list and
/// top-level position: reading fixes the whole forest.
pub proof fn lemma_same_reading(a: ExtractedNotes, b: ExtractedNotes, growth: Growth)
    requires
        planted_in(a, 0, growth.planted),
        planted_in(b, 0, growth.planted),
        positions_of(a.roots@) == growth.tops,
        positions_of(b.roots@) == growth.tops,
    ensures
        a.count() == b.count(),
        a.roots@ == b.roots@,
        forall|p: int|
            a.has(p) ==> #[trigger] a.item_at(p) == b.item_at(p) && a.parent_of(p) == b.parent_of(p)
                && a.children_of(p) == b.children_of(p),
{
    assert forall|p: int| a.has(p) implies #[trigger] a.item_at(p) == b.item_at(p) && a.parent_of(p)
        == b.parent_of(p) && a.children_of(p) == b.children_of(p) by {
        let entry = growth.planted[p - 1];
        assert(a.item_at(0 + 1 + (p - 1)) == entry.item);
        assert(b.item_at(0 + 1 + (p - 1)) == entry.item);
    }
    assert(positions_of(a.roots@).len() == a.roots@.len());
    assert(positions_of(b.roots@).len() == b.roots@.len());
    assert forall|k: int| 0 <= k < a.roots@.len() implies a.roots@[k] == b.roots@[k] by {
        assert(positions_of(a.roots@)[k] == a.roots@[k] as int);
        assert(positions_of(b.roots@)[k] == b.roots@[k] as int);
    }
    assert(a.roots@ =~= b.roots@);
}

/// What extends an extension of a forest extends the forest.
pub proof fn lemma_extends_trans(a: ExtractedNotes, b: ExtractedNotes, c: ExtractedNotes)
    requires
        extends(a, b),
        extends(b, c),
    ensures
        extends(a, c),
        read_since(a, b) && read_since(b, c) ==> read_since(a, c),
{
    if read_since(a, b) && read_since(b, c) {
        assert forall|p: int| a.count() < p <= c.count() implies well_read(
            #[trigger] c.item_at(p),
        ) by {
            if p <= b.count() {
                assert(b.has(p));
                assert(c.item_at(p) == b.item_at(p));
            }
        }
    }
    assert forall|p: int| a.has(p) implies #[trigger] c.item_at(p) == a.item_at(p) && c.parent_of(p)
        == a.parent_of(p) by {
        assert(b.has(p));
        assert(b.item_at(p) == a.item_at(p));
    }
    assert(a.roots@.is_prefix_of(c.roots@)) by {
        assert(b.roots@.subrange(0, a.roots@.len() as int) == a.roots@);
        assert(c.roots@.subrange(0, b.roots@.len() as int) == b.roots@);
        assert(c.roots@.subrange(0, a.roots@.len() as int) =~= b.roots@.subrange(
            0,
            a.roots@.len() as int,
        ));
    }
}

} // verus!
