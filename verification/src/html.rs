//! The HTML parser that the extraction rests on. Parsing, element lookup,
//! serialization and text content are the `select` crate's work; this module
//! states what the rest of the library relies on and proves none of it.

use select::document::Document;
use select::predicate::Name;
use vstd::prelude::*;

verus! {

/// What a parsed document reports of one of its nodes.
pub struct NodeFacts {
    /// The local name of an element; `None` for text and comment nodes.
    pub name: Option<Seq<char>>,
    /// The value reported for each attribute name that the element carries.
    pub attrs: Map<Seq<char>, Seq<char>>,
    /// The serialization of the node's children.
    pub inner_html: Seq<char>,
    /// The text of the node and of everything below it.
    pub text: Seq<char>,
}

/// `select::document::Document`: a parsed document. Nothing of its inside is
/// known here but what the functions below state.
#[verifier::external_type_specification]
#[verifier::external_body]
pub struct ExDocument(Document);

/// The nodes that a document holds, in the order in which it holds them.
pub uninterp spec fn document_nodes(doc: Document) -> Seq<NodeFacts>;

/// The nodes of the document that parsing `html` gives.
pub uninterp spec fn parsed_nodes(html: Seq<char>) -> Seq<NodeFacts>;

/// The elements named `tag` among `nodes`, in order.
pub open spec fn elements_named(nodes: Seq<NodeFacts>, tag: Seq<char>) -> Seq<NodeFacts> {
    nodes.filter(|node: NodeFacts| node.name == Some(tag))
}

/// The value of attribute `name` on `node`, if it carries one.
pub open spec fn attr_of(node: NodeFacts, name: Seq<char>) -> Option<Seq<char>> {
    if node.attrs.contains_key(name) {
        Some(node.attrs[name])
    } else {
        None
    }
}

/// The longest text, in characters, that is handed to the parser. The
/// parser holds the text, and each run of text in it, in buffers whose
/// length in bytes is a 32-bit number, and panics beyond that. A character
/// takes at most four bytes, and the parser writes at most three bytes for
/// one that it replaces, so a text within this limit stays within the
/// buffers.
pub const MAX_FRAGMENT_CHARS: usize = 0x1000_0000;

/// `Document::from(&str)`: for a text within the limit parsing never fails,
/// and equal text gives equal nodes. The limit is on length only: the
/// document is built and walked by recursion, as deep as the markup nests,
/// and the stack that this takes is not bounded here.
#[verifier::external_body]
pub(crate) fn parse_document(html: &str) -> (doc: Document)
    requires
        html@.len() <= MAX_FRAGMENT_CHARS,
    ensures
        document_nodes(doc) == parsed_nodes(html@),
{
    Document::from(html)
}

/// `Document::find` with the predicate `Name(tag)`, each node given by its
/// index: the search walks the nodes in order and keeps exactly the elements
/// named `tag`.
#[verifier::external_body]
pub(crate) fn find_by_name(doc: &Document, tag: &str) -> (found: Vec<usize>)
    ensures
        forall|k: int| 0 <= k < found@.len() ==> found@[k] < document_nodes(*doc).len(),
        forall|j: int, k: int| 0 <= j < k < found@.len() ==> found@[j] < found@[k],
        found@.map_values(|i: usize| document_nodes(*doc)[i as int]) == elements_named(
            document_nodes(*doc),
            tag@,
        ),
{
    doc.find(Name(tag)).map(|node| node.index()).collect()
}

/// `Node::attr` on the node at `index`: the attribute's value, or `None`
/// where the node carries no such attribute.
#[verifier::external_body]
pub(crate) fn node_attr(doc: &Document, index: usize, name: &str) -> (value: Option<String>)
    requires
        index < document_nodes(*doc).len(),
    ensures
        value.deep_view() == attr_of(document_nodes(*doc)[index as int], name@),
{
    doc.nth(index).unwrap().attr(name).map(|value| value.to_string())
}

/// `Node::inner_html` on the node at `index`.
#[verifier::external_body]
pub(crate) fn node_inner_html(doc: &Document, index: usize) -> (html: String)
    requires
        index < document_nodes(*doc).len(),
    ensures
        html@ == document_nodes(*doc)[index as int].inner_html,
{
    doc.nth(index).unwrap().inner_html()
}

/// `Node::text` on the node at `index`.
#[verifier::external_body]
pub(crate) fn node_text(doc: &Document, index: usize) -> (text: String)
    requires
        index < document_nodes(*doc).len(),
    ensures
        text@ == document_nodes(*doc)[index as int].text,
{
    doc.nth(index).unwrap().text()
}

} // verus!
