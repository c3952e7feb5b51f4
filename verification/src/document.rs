use vstd::prelude::*;

verus! {

use crate::parser::parser;
use crate::parser::parser::document_of;
use crate::tag::{Tag, tag_of_name};

/// Mathematical image of a `Document`: three column-aligned sequences, one
/// entry per node.
#[verifier::ext_equal]
pub struct DocumentModel {
    pub tags: Seq<Tag>,
    pub texts: Seq<Seq<char>>,
    pub parents: Seq<i32>,
}

impl DocumentModel {
    /// The three columns describe the same number of nodes.
    pub open spec fn wf(self) -> bool {
        self.tags.len() == self.texts.len() && self.tags.len() == self.parents.len()
    }
}

/// One document node seen as a single record: its tag kind, its text
/// payload and its parent link.
#[verifier::ext_equal]
pub struct NodeModel {
    pub tag: Tag,
    pub text: Seq<char>,
    pub parent: i32,
}

/// The document's nodes as a sequence of records, one per position.
pub open spec fn rows_of(d: DocumentModel) -> Seq<NodeModel> {
    Seq::new(
        d.tags.len(),
        |i: int| NodeModel { tag: d.tags[i], text: d.texts[i], parent: d.parents[i] },
    )
}

/// The number of element nodes (everything but text nodes) in a tag column.
pub open spec fn element_count(tags: Seq<Tag>) -> nat
    decreases tags.len(),
{
    if tags.len() == 0 {
        0
    } else {
        element_count(tags.drop_last()) + if tags.last() != Tag::Text {
            1nat
        } else {
            0nat
        }
    }
}

/// The model of a document with no nodes.
pub open spec fn empty_document() -> DocumentModel {
    DocumentModel { tags: Seq::empty(), texts: Seq::empty(), parents: Seq::empty() }
}

/// Flat, append-only, positionally indexed storage of document nodes: a tag
/// kind, a text payload and a parent link per node. A parent link is the
/// index of the enclosing element node, or the sentinel -1 at top level.
pub struct Document {
    pub tags: Vec<Tag>,
    pub texts: Vec<String>,
    pub parents: Vec<i32>,
}

impl View for Document {
    type V = DocumentModel;

    open spec fn view(&self) -> DocumentModel {
        DocumentModel {
            tags: self.tags@,
            texts: self.texts@.map_values(|t: String| t@),
            parents: self.parents@,
        }
    }
}

impl Document {
    pub fn new() -> (d: Self)
        ensures
            d@ == empty_document(),
    {
        let d = Document { tags: Vec::new(), texts: Vec::new(), parents: Vec::new() };
        proof {
            assert(d@.texts =~= Seq::<Seq<char>>::empty());
        }
        d
    }

    /// Append an element node: its tag from the name lookup, an empty text
    /// payload, and the given parent link.
    pub fn push_tag(&mut self, tag_name: &str, parent_index: i32)
        ensures
            final(self)@.tags == old(self)@.tags.push(tag_of_name(tag_name@)),
            final(self)@.texts == old(self)@.texts.push(Seq::<char>::empty()),
            final(self)@.parents == old(self)@.parents.push(parent_index),
    {
        let ghost pre = self@;
        self.tags.push(Tag::from_name(tag_name));
        self.texts.push(String::new());
        self.parents.push(parent_index);
        proof {
            assert(self@.texts =~= pre.texts.push(Seq::<char>::empty()));
        }
    }

    /// Append a text node: tag `Text`, the text run as payload, and the
    /// given parent link.
    pub fn push_text(&mut self, text: &str, parent_index: i32)
        ensures
            final(self)@.tags == old(self)@.tags.push(Tag::Text),
            final(self)@.texts == old(self)@.texts.push(text@),
            final(self)@.parents == old(self)@.parents.push(parent_index),
    {
        let ghost pre = self@;
        self.tags.push(Tag::Text);
        self.texts.push(text.to_owned());
        self.parents.push(parent_index);
        proof {
            assert(self@.texts =~= pre.texts.push(text@));
        }
    }

    /// The number of nodes stored so far; positions are stable, so this is
    /// also one past the index of the most recently appended node.
    pub fn get_last_node_index(&self) -> (i: i32)
        requires
            self@.tags.len() <= i32::MAX as int,
        ensures
            i as int == self@.tags.len() as int,
    {
        self.tags.len() as i32
    }

    /// Parse a markup string into its document structure.
    pub fn from_string(content: &str) -> (d: Self)
        requires
            content@.len() <= i32::MAX as int,
        ensures
            d@ == document_of(content@),
    {
        parser::parse(content)
    }
}

} // verus!
