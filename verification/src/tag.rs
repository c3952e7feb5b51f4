use vstd::prelude::*;

verus! {

use crate::text::str_eq;

/// Semantic classification of an element name. `Text` is reserved for text
/// nodes; `Undefined` is the fallback for names outside the known table.
#[derive(Clone, Debug, PartialEq)]
pub enum Tag {
    Body,
    Div,
    P,
    Text,
    Undefined,
}

/// The tag-name lookup as a pure function on character sequences: the three
/// known names map to their kinds, the empty name to `Text`, and every other
/// name to the `Undefined` fallback.
pub open spec fn tag_of_name(name: Seq<char>) -> Tag {
    if name == "body"@ {
        Tag::Body
    } else if name == "div"@ {
        Tag::Div
    } else if name == "p"@ {
        Tag::P
    } else if name == ""@ {
        Tag::Text
    } else {
        Tag::Undefined
    }
}

impl Tag {
    /// Total over all strings: unknown names resolve to `Tag::Undefined`,
    /// never to an error.
    pub fn from_name(name: &str) -> (t: Tag)
        ensures
            t == tag_of_name(name@),
    {
        if str_eq(name, "body") {
            Tag::Body
        } else if str_eq(name, "div") {
            Tag::Div
        } else if str_eq(name, "p") {
            Tag::P
        } else if str_eq(name, "") {
            Tag::Text
        } else {
            Tag::Undefined
        }
    }
}

} // verus!
