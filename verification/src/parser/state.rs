use vstd::prelude::*;

verus! {

/// The tokenizer's control state: exactly one is live at a time. `Done` is
/// the terminal sink entered on a malformed comment opener.
#[derive(Clone, Copy, Debug, PartialEq)]
pub enum State {
    Done,
    ReadAttributes,
    ReadClosingComment,
    ReadClosingCommentDash,
    ReadClosingTagName,
    ReadCommentContent,
    ReadContent,
    ReadDoctype,
    ReadOpeningCommentDash,
    ReadOpeningCommentOrDoctype,
    ReadOpeningTagName,
    ReadTagName,
    ReadText,
    SeekOpeningTag,
}

} // verus!
