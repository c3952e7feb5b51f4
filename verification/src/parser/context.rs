use vstd::prelude::*;

verus! {

use crate::parser::state::State;

/// Mathematical image of a `Context`: the live state, whether a token is
/// ready, and the two payload buffers as character sequences.
#[verifier::ext_equal]
pub struct ContextModel {
    pub state: State,
    pub found: bool,
    pub name: Seq<char>,
    pub text: Seq<char>,
}

/// A fresh context in the given state, with both buffers empty.
pub open spec fn ctx_start_model(state: State) -> ContextModel {
    ContextModel { state, found: false, name: Seq::empty(), text: Seq::empty() }
}

/// What `clear_token` leaves behind: both buffers cleared, the readiness
/// flag down, the state untouched.
pub open spec fn ctx_reset(m: ContextModel) -> ContextModel {
    ContextModel { found: false, name: Seq::empty(), text: Seq::empty(), ..m }
}

pub open spec fn ctx_step_seek_opening_tag(m: ContextModel, c: char) -> ContextModel {
    if c == '<' {
        ContextModel { state: State::ReadTagName, ..m }
    } else {
        m
    }
}

pub open spec fn ctx_step_read_tag_name(m: ContextModel, c: char) -> ContextModel {
    if c == '!' {
        ContextModel { state: State::ReadOpeningCommentOrDoctype, ..m }
    } else if c == '/' {
        ContextModel { state: State::ReadClosingTagName, name: m.name.push(c), ..m }
    } else {
        ContextModel { state: State::ReadOpeningTagName, name: m.name.push(c), ..m }
    }
}

pub open spec fn ctx_step_read_opening_tag_name(m: ContextModel, c: char) -> ContextModel {
    if c == '>' {
        ContextModel { state: State::ReadContent, found: true, ..m }
    } else if c == ' ' {
        ContextModel { state: State::ReadAttributes, ..m }
    } else {
        ContextModel { name: m.name.push(c), ..m }
    }
}

pub open spec fn ctx_step_read_attributes(m: ContextModel, c: char) -> ContextModel {
    if c == '>' {
        ContextModel { state: State::ReadContent, ..m }
    } else {
        m
    }
}

pub open spec fn ctx_step_read_closing_tag_name(m: ContextModel, c: char) -> ContextModel {
    if c == '>' {
        ContextModel { state: State::ReadContent, ..m }
    } else {
        ContextModel { name: m.name.push(c), ..m }
    }
}

pub open spec fn ctx_step_read_content(m: ContextModel, c: char) -> ContextModel {
    if c == '<' {
        ContextModel { state: State::ReadTagName, ..m }
    } else {
        ContextModel { state: State::ReadText, text: m.text.push(c), ..m }
    }
}

pub open spec fn ctx_step_read_text(m: ContextModel, c: char) -> ContextModel {
    if c == '<' {
        ContextModel { state: State::ReadTagName, found: true, ..m }
    } else {
        ContextModel { text: m.text.push(c), ..m }
    }
}

pub open spec fn ctx_step_read_opening_comment_or_doctype(m: ContextModel, c: char) -> ContextModel {
    if c == '-' {
        ContextModel { state: State::ReadOpeningCommentDash, ..m }
    } else if c == 'D' {
        ContextModel { state: State::ReadDoctype, ..m }
    } else {
        m
    }
}

pub open spec fn ctx_step_read_opening_comment_dash(m: ContextModel, c: char) -> ContextModel {
    if c == '-' {
        ContextModel { state: State::ReadCommentContent, ..m }
    } else {
        ContextModel { state: State::Done, ..m }
    }
}

pub open spec fn ctx_step_read_comment_content(m: ContextModel, c: char) -> ContextModel {
    if c == '-' {
        ContextModel { state: State::ReadClosingComment, ..m }
    } else {
        m
    }
}

pub open spec fn ctx_step_read_closing_comment(m: ContextModel, c: char) -> ContextModel {
    if c == '-' {
        ContextModel { state: State::ReadClosingCommentDash, ..m }
    } else {
        ContextModel { state: State::ReadCommentContent, ..m }
    }
}

pub open spec fn ctx_step_read_closing_comment_dash(m: ContextModel, c: char) -> ContextModel {
    if c == '>' {
        ContextModel { state: State::ReadContent, ..m }
    } else {
        ContextModel { state: State::ReadCommentContent, ..m }
    }
}

pub open spec fn ctx_step_read_doctype(m: ContextModel, c: char) -> ContextModel {
    if c == '>' {
        ContextModel { state: State::ReadContent, ..m }
    } else {
        m
    }
}

/// One transition of the context machine. It differs from the tokenizer in
/// three points: a closing tag's `/` is kept in the name buffer, closing a
/// closing tag raises no readiness flag, and tag name and text run live in
/// two separate buffers.
pub open spec fn ctx_step(m: ContextModel, c: char) -> ContextModel {
    match m.state {
        State::Done => m,
        State::ReadAttributes => ctx_step_read_attributes(m, c),
        State::ReadClosingComment => ctx_step_read_closing_comment(m, c),
        State::ReadClosingCommentDash => ctx_step_read_closing_comment_dash(m, c),
        State::ReadClosingTagName => ctx_step_read_closing_tag_name(m, c),
        State::ReadCommentContent => ctx_step_read_comment_content(m, c),
        State::ReadContent => ctx_step_read_content(m, c),
        State::ReadDoctype => ctx_step_read_doctype(m, c),
        State::ReadOpeningCommentDash => ctx_step_read_opening_comment_dash(m, c),
        State::ReadOpeningCommentOrDoctype => ctx_step_read_opening_comment_or_doctype(m, c),
        State::ReadOpeningTagName => ctx_step_read_opening_tag_name(m, c),
        State::ReadTagName => ctx_step_read_tag_name(m, c),
        State::ReadText => ctx_step_read_text(m, c),
        State::SeekOpeningTag => ctx_step_seek_opening_tag(m, c),
    }
}

/// A single-token variant of the tokenizer that keeps the tag name and the
/// text run in two separate buffers instead of one token slot.
pub struct Context {
    pub state: State,
    pub token_has_been_found: bool,
    pub token_name: String,
    pub token_text_content: String,
}

impl View for Context {
    type V = ContextModel;

    open spec fn view(&self) -> ContextModel {
        ContextModel {
            state: self.state,
            found: self.token_has_been_found,
            name: self.token_name@,
            text: self.token_text_content@,
        }
    }
}

impl Context {
    pub fn new() -> (r: Self)
        ensures
            r@ == ctx_start_model(State::SeekOpeningTag),
    {
        Context::from_state(State::SeekOpeningTag)
    }

    pub fn from_state(state: State) -> (r: Self)
        ensures
            r@ == ctx_start_model(state),
    {
        Context {
            state: state,
            token_has_been_found: false,
            token_name: String::new(),
            token_text_content: String::new(),
        }
    }

    /// Consume one character: a single transition of the machine.
    pub fn handle(&mut self, character: char)
        ensures
            final(self)@ == ctx_step(old(self)@, character),
    {
        match self.state {
            State::Done => {},
            State::ReadAttributes => self.handle_read_attributes(character),
            State::ReadClosingComment => self.handle_read_closing_comment(character),
            State::ReadClosingCommentDash => self.handle_read_closing_comment_dash(character),
            State::ReadClosingTagName => self.handle_read_closing_tag_name(character),
            State::ReadCommentContent => self.handle_read_comment_content(character),
            State::ReadContent => self.handle_read_content(character),
            State::ReadDoctype => self.handle_read_doctype(character),
            State::ReadOpeningCommentDash => self.handle_read_opening_comment_dash(character),
            State::ReadOpeningCommentOrDoctype => {
                self.handle_read_opening_comment_or_doctype(character)
            },
            State::ReadOpeningTagName => self.handle_read_opening_tag_name(character),
            State::ReadTagName => self.handle_read_tag_name(character),
            State::ReadText => self.handle_read_text(character),
            State::SeekOpeningTag => self.handle_opening_tag(character),
        }
    }

    pub fn token_has_been_found(&self) -> (b: bool)
        ensures
            b == self@.found,
    {
        self.token_has_been_found
    }

    pub fn get_token_name(&self) -> (r: &str)
        ensures
            r@ == self@.name,
    {
        self.token_name.as_str()
    }

    pub fn get_token_text_content(&self) -> (r: &str)
        ensures
            r@ == self@.text,
    {
        self.token_text_content.as_str()
    }

    /// Clear both payload buffers and the readiness flag.
    pub fn clear_token(&mut self)
        ensures
            final(self)@ == ctx_reset(old(self)@),
    {
        self.token_name = String::new();
        self.token_text_content = String::new();
        self.token_has_been_found = false;
    }

    pub fn handle_opening_tag(&mut self, character: char)
        ensures
            final(self)@ == ctx_step_seek_opening_tag(old(self)@, character),
    {
        if character == '<' {
            self.state = State::ReadTagName;
        }
    }

    pub fn handle_read_tag_name(&mut self, character: char)
        ensures
            final(self)@ == ctx_step_read_tag_name(old(self)@, character),
    {
        if character == '!' {
            self.state = State::ReadOpeningCommentOrDoctype;
        } else {
            if character == '/' {
                self.state = State::ReadClosingTagName;
            } else {
                self.state = State::ReadOpeningTagName;
            }
            self.token_name.push(character);
        }
    }

    pub fn handle_read_opening_tag_name(&mut self, character: char)
        ensures
            final(self)@ == ctx_step_read_opening_tag_name(old(self)@, character),
    {
        if character == '>' {
            self.token_has_been_found = true;
            self.state = State::ReadContent;
        } else if character == ' ' {
            self.state = State::ReadAttributes;
        } else {
            self.token_name.push(character);
        }
    }

    pub fn handle_read_attributes(&mut self, character: char)
        ensures
            final(self)@ == ctx_step_read_attributes(old(self)@, character),
    {
        if character == '>' {
            self.state = State::ReadContent;
        } else {
            // The character belongs to the attribute region, which is
            // recognized only to find the tag's closing `>`: it is discarded.
        }
    }

    pub fn handle_read_closing_tag_name(&mut self, character: char)
        ensures
            final(self)@ == ctx_step_read_closing_tag_name(old(self)@, character),
    {
        if character == '>' {
            self.state = State::ReadContent;
        } else {
            self.token_name.push(character);
        }
    }

    pub fn handle_read_content(&mut self, character: char)
        ensures
            final(self)@ == ctx_step_read_content(old(self)@, character),
    {
        if character == '<' {
            self.state = State::ReadTagName;
        } else {
            self.token_text_content.push(character);
            self.state = State::ReadText;
        }
    }

    pub fn handle_read_text(&mut self, character: char)
        ensures
            final(self)@ == ctx_step_read_text(old(self)@, character),
    {
        if character == '<' {
            self.token_has_been_found = true;
            self.state = State::ReadTagName;
        } else {
            self.token_text_content.push(character);
        }
    }

    pub fn handle_read_opening_comment_or_doctype(&mut self, character: char)
        ensures
            final(self)@ == ctx_step_read_opening_comment_or_doctype(old(self)@, character),
    {
        if character == '-' {
            self.state = State::ReadOpeningCommentDash;
        } else if character == 'D' {
            self.state = State::ReadDoctype;
        }
    }

    pub fn handle_read_opening_comment_dash(&mut self, character: char)
        ensures
            final(self)@ == ctx_step_read_opening_comment_dash(old(self)@, character),
    {
        if character == '-' {
            self.state = State::ReadCommentContent;
        } else {
            self.state = State::Done;
        }
    }

    pub fn handle_read_comment_content(&mut self, character: char)
        ensures
            final(self)@ == ctx_step_read_comment_content(old(self)@, character),
    {
        if character == '-' {
            self.state = State::ReadClosingComment;
        }
    }

    pub fn handle_read_closing_comment(&mut self, character: char)
        ensures
            final(self)@ == ctx_step_read_closing_comment(old(self)@, character),
    {
        if character == '-' {
            self.state = State::ReadClosingCommentDash;
        } else {
            self.state = State::ReadCommentContent;
        }
    }

    pub fn handle_read_closing_comment_dash(&mut self, character: char)
        ensures
            final(self)@ == ctx_step_read_closing_comment_dash(old(self)@, character),
    {
        if character == '>' {
            self.state = State::ReadContent;
        } else {
            self.state = State::ReadCommentContent;
        }
    }

    pub fn handle_read_doctype(&mut self, character: char)
        ensures
            final(self)@ == ctx_step_read_doctype(old(self)@, character),
    {
        if character == '>' {
            self.state = State::ReadContent;
        }
    }
}

} // verus!
