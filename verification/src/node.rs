use vstd::prelude::*;

verus! {

use crate::text::str_eq;

/// Semantic classification of an element name, as carried by a free-standing
/// `Node` record. `Text` is reserved for text nodes; `Undefined` is the
/// fallback for names outside the known table.
#[derive(Debug, PartialEq)]
pub enum Tag {
    Body,
    Div,
    P,
    Text,
    Undefined,
}

/// The tag-name lookup as a pure function on character sequences: the three
/// known names map to their kinds, the empty name to `Text`, and every other
/// name to the `Undefined` fallback.
pub open spec fn tag_of_name(name: Seq<char>) -> Tag {
    if name == "body"@ {
        Tag::Body
    } else if name == "div"@ {
        Tag::Div
    } else if name == "p"@ {
        Tag::P
    } else if name == ""@ {
        Tag::Text
    } else {
        Tag::Undefined
    }
}

impl Tag {
    /// Total over all strings: unknown names resolve to `Tag::Undefined`,
    /// never to an error.
    pub fn from_name(name: &str) -> (t: Tag)
        ensures
            t == tag_of_name(name@),
    {
        if str_eq(name, "body") {
            Tag::Body
        } else if str_eq(name, "div") {
            Tag::Div
        } else if str_eq(name, "p") {
            Tag::P
        } else if str_eq(name, "") {
            Tag::Text
        } else {
            Tag::Undefined
        }
    }
}

/// A single document node as a free-standing record: its tag kind, its text
/// payload, and its position (not yet assigned: the sentinel -1).
#[derive(Debug)]
pub struct Node {
    pub tag: Tag,
    pub text_content: String,
    pub index: i32,
}

impl Node {
    fn new(tag: Tag, text_content: &str) -> (n: Self)
        ensures
            n.tag == tag,
            n.text_content@ == text_content@,
            n.index == -1,
    {
        Node { tag: tag, text_content: text_content.to_owned(), index: -1 }
    }

    /// An element node: its tag comes from the name lookup, its text payload
    /// is empty.
    pub fn tag(tag_name: &str) -> (n: Self)
        ensures
            n.tag == tag_of_name(tag_name@),
            n.text_content@ == Seq::<char>::empty(),
            n.index == -1,
    {
        let n = Node::new(Tag::from_name(tag_name), "");
        proof {
            reveal_strlit("");
            assert(n.text_content@ =~= Seq::<char>::empty());
        }
        n
    }

    /// A text node: tag `Text`, payload the given text run.
    pub fn text(text_content: &str) -> (n: Self)
        ensures
            n.tag == Tag::Text,
            n.text_content@ == text_content@,
            n.index == -1,
    {
        Node::new(Tag::Text, text_content)
    }
}

} // verus!
