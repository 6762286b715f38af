//! The XML document and the XPath queries over it, as `sxd_document` and
//! `sxd_xpath` provide them. What a query gives at a node has a name here, so
//! that the contracts of the code that reads a document can say which value
//! ends in which item or error. Queries are evaluated only where every
//! prefixed name in them has the prefix that is bound, and where they cannot
//! call `sum`.

use vstd::prelude::*;
use vstd::string::StrSliceExecFns;
use sxd_document::Package;
use sxd_xpath::nodeset::Node;
use sxd_xpath::{Context, Factory, Value};

verus! {

#[verifier::external_type_specification]
#[verifier::external_body]
pub struct ExPackage(Package);

#[verifier::external_type_specification]
#[verifier::external_body]
pub struct ExDocumentError(sxd_document::parser::Error);

#[verifier::external_type_specification]
#[verifier::external_body]
pub struct ExNode<'d>(Node<'d>);

#[verifier::external_type_specification]
#[verifier::external_body]
pub struct ExValue<'d>(Value<'d>);

#[verifier::external_type_specification]
#[verifier::external_body]
pub struct ExQueryError(sxd_xpath::Error);

/// An ASCII letter.
pub open spec fn is_letter(c: char) -> bool {
    ('a' <= c && c <= 'z') || ('A' <= c && c <= 'Z')
}

/// The expression nowhere holds the letters `sum` in a row, so that it
/// cannot call the function `sum`.
pub open spec fn without_sum(expression: Seq<char>) -> bool {
    forall|i: int|
        0 <= i && i + 2 < expression.len() ==> !(#[trigger] expression[i] == 's' && expression[i
            + 1] == 'u' && expression[i + 2] == 'm')
}

/// A query whose value at a node is fixed by the query, the binding of the
/// prefix and the node. No name in it can have another prefix than `prefix`:
/// the prefix is one letter, and every colon of the query follows that
/// letter, which in turn begins the query or follows a slash. And it cannot
/// call `sum`, the one function whose result depends on the order in which a
/// set of nodes happens to be walked.
pub open spec fn plain_query(expression: Seq<char>, prefix: Seq<char>) -> bool {
    &&& prefix.len() == 1
    &&& is_letter(prefix[0])
    &&& forall|i: int|
        0 <= i < expression.len() && #[trigger] expression[i] == ':' ==> {
            &&& i >= 1
            &&& expression[i - 1] == prefix[0]
            &&& (i == 1 || expression[i - 2] == '/')
        }
    &&& without_sum(expression)
}

/// Whether a query is plain for a prefix.
pub fn is_plain_query(expression: &str, prefix: &str) -> (r: bool)
    ensures
        r == plain_query(expression@, prefix@),
{
    if prefix.unicode_len() != 1 {
        return false;
    }
    let letter: char = prefix.get_char(0);
    if !(('a' <= letter && letter <= 'z') || ('A' <= letter && letter <= 'Z')) {
        return false;
    }
    let n: usize = expression.unicode_len();
    let mut i: usize = 0;
    while i < n
        invariant
            i <= n,
            n == expression@.len(),
            prefix@.len() == 1,
            letter == prefix@[0],
            forall|k: int|
                0 <= k < i && #[trigger] expression@[k] == ':' ==> {
                    &&& k >= 1
                    &&& expression@[k - 1] == letter
                    &&& (k == 1 || expression@[k - 2] == '/')
                },
            forall|k: int|
                0 <= k < i && k + 2 < n ==> !(#[trigger] expression@[k] == 's' && expression@[k + 1]
                    == 'u' && expression@[k + 2] == 'm'),
        decreases n - i,
    {
        let here: char = expression.get_char(i);
        if here == ':' {
            if i < 1 || expression.get_char(i - 1) != letter {
                return false;
            }
            if i != 1 && expression.get_char(i - 2) != '/' {
                return false;
            }
        }
        if here == 's' && n - i > 2 {
            if expression.get_char(i + 1) == 'u' && expression.get_char(i + 2) == 'm' {
                return false;
            }
        }
        i += 1;
    }
    true
}

/// Whether `sxd_document` reads the text as an XML document.
pub uninterp spec fn is_document(xml: Seq<char>) -> bool;

/// `sxd_document::parser::parse`: the document that the text holds, or why
/// it is not one.
#[verifier::external_body]
pub(crate) fn parse_document(xml: &str) -> (r: Result<Package, sxd_document::parser::Error>)
    ensures
        r.is_ok() == is_document(xml@),
{
    sxd_document::parser::parse(xml)
}

/// Whether `sxd_xpath` compiles the expression to a query.
pub uninterp spec fn is_query(expression: Seq<char>) -> bool;

/// `Factory::new` and `Factory::build`: whether the expression compiles to a query.
#[verifier::external_body]
pub(crate) fn query_compiles(expression: &str) -> (r: bool)
    ensures
        r == is_query(expression@),
{
    matches!(Factory::new().build(expression), Ok(Some(_)))
}

/// The root node of a document.
pub uninterp spec fn root_node(package: &Package) -> Node;

/// The value that `sxd_xpath` gives a query at a node, with the core
/// functions and with the prefix bound to the namespace; none where the
/// expression is no query or the query cannot be evaluated there.
pub uninterp spec fn query_value(
    expression: Seq<char>,
    prefix: Seq<char>,
    uri: Seq<char>,
    node: Node,
) -> Option<Value>;

/// The nodes of a node-set value in document order; none for a value of
/// another kind. The values met here hold nodes of the document tree only,
/// which all have a place in that order.
pub uninterp spec fn nodes_of(value: Value) -> Option<Seq<Node>>;

/// The text of a string value; none for a value of another kind.
pub uninterp spec fn text_of(value: Value) -> Option<Seq<char>>;

/// The string value of a node.
pub uninterp spec fn node_string(node: Node) -> Seq<char>;

/// `Package::as_document` and `Document::root`: the root node of the document.
#[verifier::external_body]
pub(crate) fn document_root<'d>(package: &'d Package) -> (r: Node<'d>)
    ensures
        r == root_node(package),
{
    Node::Root(package.as_document().root())
}

/// `Factory::build`, `Context::set_namespace` and `XPath::evaluate`: the
/// value of the query at the node, with the core functions and with `prefix`
/// bound to the namespace `uri`; or why it has none. `evaluate` panics on a
/// name whose prefix the context does not bind, which a plain query cannot
/// hold. The core function `sum` adds the numbers of a node-set in the order
/// in which the set is walked, which is not fixed; a plain query cannot call
/// it, and every other step goes by document order or by the set as a whole.
#[verifier::external_body]
pub(crate) fn evaluate_query<'d>(expression: &str, prefix: &str, uri: &str, node: Node<'d>) -> (r:
    Result<Value<'d>, sxd_xpath::Error>)
    requires
        plain_query(expression@, prefix@),
    ensures
        match r {
            Ok(value) => query_value(expression@, prefix@, uri@, node) == Some(value),
            Err(_) => query_value(expression@, prefix@, uri@, node).is_none(),
        },
{
    let mut context = Context::new();
    context.set_namespace(prefix, uri);
    let query = Factory::new().build(expression)?.ok_or(sxd_xpath::Error::NoXPath)?;
    Ok(query.evaluate(&context, node)?)
}

/// `Nodeset::document_order`: the nodes of a node-set value in document
/// order; nothing for a value of another kind.
#[verifier::external_body]
pub(crate) fn value_nodes<'d>(value: &Value<'d>) -> (r: Option<Vec<Node<'d>>>)
    ensures
        match r {
            Some(nodes) => nodes_of(*value) == Some(nodes@),
            None => nodes_of(*value).is_none(),
        },
{
    match value {
        Value::Nodeset(nodes) => Some(nodes.document_order()),
        _ => None,
    }
}

/// The text of a string value; nothing for a value of another kind.
#[verifier::external_body]
pub(crate) fn value_text<'d>(value: &Value<'d>) -> (r: Option<String>)
    ensures
        match r {
            Some(text) => text_of(*value) == Some(text@),
            None => text_of(*value).is_none(),
        },
{
    match value {
        Value::String(text) => Some(text.clone()),
        _ => None,
    }
}

/// `Node::string_value`: the string value of a node.
#[verifier::external_body]
pub(crate) fn node_text<'d>(node: Node<'d>) -> (r: String)
    ensures
        r@ == node_string(node),
{
    node.string_value()
}

} // verus!
