use vstd::prelude::*;

verus! {

use vstd::string::StrSliceExecFns;
use crate::parser::state::State;

/// Relies on std's `String::push`: appends the given char to the end of the
/// string.
pub assume_specification[ String::push ](s: &mut String, ch: char)
    ensures
        final(s)@ == old(s)@.push(ch),
;

#[derive(Clone, Copy, Debug, PartialEq, Eq, Structural)]
pub enum TokenKind {
    OpeningTag,
    ClosingTag,
    Text,
}

/// A lexical unit under construction or already emitted: a kind plus its
/// textual payload (the tag name, or the text run).
pub struct Token {
    pub kind: TokenKind,
    pub content: String,
}

/// Mathematical image of a `Token`: its kind and its payload as a
/// character sequence.
#[verifier::ext_equal]
pub struct TokenModel {
    pub kind: TokenKind,
    pub content: Seq<char>,
}

impl View for Token {
    type V = TokenModel;

    open spec fn view(&self) -> TokenModel {
        TokenModel { kind: self.kind, content: self.content@ }
    }
}

/// The views of a sequence of tokens, in order.
pub open spec fn views_of(tokens: Seq<Token>) -> Seq<TokenModel> {
    tokens.map_values(|t: Token| t@)
}

impl Clone for Token {
    fn clone(&self) -> (r: Self)
        ensures
            r@ == self@,
    {
        Token { kind: self.kind, content: self.content.clone() }
    }
}

impl Token {
    fn opening_tag() -> (t: Self)
        ensures
            t@ == (TokenModel { kind: TokenKind::OpeningTag, content: Seq::empty() }),
    {
        Token { kind: TokenKind::OpeningTag, content: String::new() }
    }

    fn closing_tag() -> (t: Self)
        ensures
            t@ == (TokenModel { kind: TokenKind::ClosingTag, content: Seq::empty() }),
    {
        Token { kind: TokenKind::ClosingTag, content: String::new() }
    }

    fn text() -> (t: Self)
        ensures
            t@ == (TokenModel { kind: TokenKind::Text, content: Seq::empty() }),
    {
        Token { kind: TokenKind::Text, content: String::new() }
    }

    pub fn is_opening_tag(&self) -> (r: bool)
        ensures
            r == (self@.kind == TokenKind::OpeningTag),
    {
        self.kind == TokenKind::OpeningTag
    }

    pub fn is_closing_tag(&self) -> (r: bool)
        ensures
            r == (self@.kind == TokenKind::ClosingTag),
    {
        self.kind == TokenKind::ClosingTag
    }

    pub fn is_text(&self) -> (r: bool)
        ensures
            r == (self@.kind == TokenKind::Text),
    {
        self.kind == TokenKind::Text
    }
}

/// Mathematical image of a `Tokenizer`: the live state, whether a finished
/// token is waiting to be collected, and the in-progress token slot.
#[verifier::ext_equal]
pub struct TokenizerModel {
    pub state: State,
    pub found: bool,
    pub token: TokenModel,
}

/// A fresh tokenizer in the given state: nothing found yet, empty
/// opening-tag token in the slot.
pub open spec fn start_model(state: State) -> TokenizerModel {
    TokenizerModel {
        state,
        found: false,
        token: TokenModel { kind: TokenKind::OpeningTag, content: Seq::empty() },
    }
}

/// The model of `Tokenizer::new()`.
pub open spec fn initial_model() -> TokenizerModel {
    start_model(State::SeekOpeningTag)
}

/// What collecting a finished token leaves behind: the payload cleared, the
/// readiness flag down, state and kind untouched.
pub open spec fn reset_token(m: TokenizerModel) -> TokenizerModel {
    TokenizerModel {
        found: false,
        token: TokenModel { kind: m.token.kind, content: Seq::empty() },
        ..m
    }
}

pub open spec fn step_seek_opening_tag(m: TokenizerModel, c: char) -> TokenizerModel {
    if c == '<' {
        TokenizerModel { state: State::ReadTagName, ..m }
    } else {
        m
    }
}

pub open spec fn step_read_tag_name(m: TokenizerModel, c: char) -> TokenizerModel {
    if c == '!' {
        TokenizerModel { state: State::ReadOpeningCommentOrDoctype, ..m }
    } else if c == '/' {
        TokenizerModel {
            state: State::ReadClosingTagName,
            token: TokenModel { kind: TokenKind::ClosingTag, content: Seq::empty() },
            ..m
        }
    } else {
        TokenizerModel {
            state: State::ReadOpeningTagName,
            token: TokenModel { kind: TokenKind::OpeningTag, content: seq![c] },
            ..m
        }
    }
}

pub open spec fn step_read_opening_tag_name(m: TokenizerModel, c: char) -> TokenizerModel {
    if c == '>' {
        TokenizerModel { state: State::ReadContent, found: true, ..m }
    } else if c == ' ' {
        TokenizerModel { state: State::ReadAttributes, ..m }
    } else {
        TokenizerModel {
            token: TokenModel { kind: m.token.kind, content: m.token.content.push(c) },
            ..m
        }
    }
}

pub open spec fn step_read_attributes(m: TokenizerModel, c: char) -> TokenizerModel {
    if c == '>' {
        TokenizerModel { state: State::ReadContent, ..m }
    } else {
        m
    }
}

pub open spec fn step_read_closing_tag_name(m: TokenizerModel, c: char) -> TokenizerModel {
    if c == '>' {
        TokenizerModel { state: State::ReadContent, found: true, ..m }
    } else {
        TokenizerModel {
            token: TokenModel { kind: m.token.kind, content: m.token.content.push(c) },
            ..m
        }
    }
}

pub open spec fn step_read_content(m: TokenizerModel, c: char) -> TokenizerModel {
    if c == '<' {
        TokenizerModel { state: State::ReadTagName, ..m }
    } else {
        TokenizerModel {
            state: State::ReadText,
            token: TokenModel { kind: TokenKind::Text, content: seq![c] },
            ..m
        }
    }
}

pub open spec fn step_read_text(m: TokenizerModel, c: char) -> TokenizerModel {
    if c == '<' {
        TokenizerModel { state: State::ReadTagName, found: true, ..m }
    } else {
        TokenizerModel {
            token: TokenModel { kind: m.token.kind, content: m.token.content.push(c) },
            ..m
        }
    }
}

pub open spec fn step_read_opening_comment_or_doctype(m: TokenizerModel, c: char) -> TokenizerModel {
    if c == '-' {
        TokenizerModel { state: State::ReadOpeningCommentDash, ..m }
    } else if c == 'D' {
        TokenizerModel { state: State::ReadDoctype, ..m }
    } else {
        m
    }
}

pub open spec fn step_read_opening_comment_dash(m: TokenizerModel, c: char) -> TokenizerModel {
    if c == '-' {
        TokenizerModel { state: State::ReadCommentContent, ..m }
    } else {
        TokenizerModel { state: State::Done, ..m }
    }
}

pub open spec fn step_read_comment_content(m: TokenizerModel, c: char) -> TokenizerModel {
    if c == '-' {
        TokenizerModel { state: State::ReadClosingComment, ..m }
    } else {
        m
    }
}

pub open spec fn step_read_closing_comment(m: TokenizerModel, c: char) -> TokenizerModel {
    if c == '-' {
        TokenizerModel { state: State::ReadClosingCommentDash, ..m }
    } else {
        TokenizerModel { state: State::ReadCommentContent, ..m }
    }
}

pub open spec fn step_read_closing_comment_dash(m: TokenizerModel, c: char) -> TokenizerModel {
    if c == '>' {
        TokenizerModel { state: State::ReadContent, ..m }
    } else {
        TokenizerModel { state: State::ReadCommentContent, ..m }
    }
}

pub open spec fn step_read_doctype(m: TokenizerModel, c: char) -> TokenizerModel {
    if c == '>' {
        TokenizerModel { state: State::ReadContent, ..m }
    } else {
        m
    }
}

/// One transition of the finite-state machine: the character is consumed,
/// the state advances, and the token slot is extended, replaced or marked
/// finished as the transition table prescribes. `Done` is a sink.
pub open spec fn tokenizer_step(m: TokenizerModel, c: char) -> TokenizerModel {
    match m.state {
        State::Done => m,
        State::ReadAttributes => step_read_attributes(m, c),
        State::ReadClosingComment => step_read_closing_comment(m, c),
        State::ReadClosingCommentDash => step_read_closing_comment_dash(m, c),
        State::ReadClosingTagName => step_read_closing_tag_name(m, c),
        State::ReadCommentContent => step_read_comment_content(m, c),
        State::ReadContent => step_read_content(m, c),
        State::ReadDoctype => step_read_doctype(m, c),
        State::ReadOpeningCommentDash => step_read_opening_comment_dash(m, c),
        State::ReadOpeningCommentOrDoctype => step_read_opening_comment_or_doctype(m, c),
        State::ReadOpeningTagName => step_read_opening_tag_name(m, c),
        State::ReadTagName => step_read_tag_name(m, c),
        State::ReadText => step_read_text(m, c),
        State::SeekOpeningTag => step_seek_opening_tag(m, c),
    }
}

/// The tokens emitted when the characters of `s` are fed one by one to a
/// tokenizer in model state `m`, each finished token being collected and
/// the slot reset before the next character, exactly as `get_tokens` does.
pub open spec fn tokens_from(m: TokenizerModel, s: Seq<char>) -> Seq<TokenModel>
    decreases s.len(),
{
    if s.len() == 0 {
        Seq::empty()
    } else {
        let m2 = tokenizer_step(m, s[0]);
        if m2.found {
            seq![m2.token] + tokens_from(reset_token(m2), s.skip(1))
        } else {
            tokens_from(m2, s.skip(1))
        }
    }
}

/// The tokenizer model left behind after feeding the characters of `s`,
/// collecting (and so resetting) each finished token along the way.
pub open spec fn tokenizer_run(m: TokenizerModel, s: Seq<char>) -> TokenizerModel
    decreases s.len(),
{
    if s.len() == 0 {
        m
    } else {
        let m2 = tokenizer_step(m, s[0]);
        tokenizer_run(if m2.found { reset_token(m2) } else { m2 }, s.skip(1))
    }
}

/// The token sequence of a whole input, from the initial state.
pub open spec fn tokens_of(s: Seq<char>) -> Seq<TokenModel> {
    tokens_from(initial_model(), s)
}

/// The number of opening-tag tokens in a token sequence.
pub open spec fn opening_tag_count(toks: Seq<TokenModel>) -> nat
    decreases toks.len(),
{
    if toks.len() == 0 {
        0
    } else {
        opening_tag_count(toks.drop_last()) + if toks.last().kind == TokenKind::OpeningTag {
            1nat
        } else {
            0nat
        }
    }
}

/// Shape of every token the machine emits: an opening-tag or text token
/// always carries at least one character of payload (only a closing tag's
/// name may be empty, as in `</>`).
pub open spec fn token_shape_ok(t: TokenModel) -> bool {
    t.kind == TokenKind::ClosingTag || t.content.len() >= 1
}

/// Invariant tying the token slot to the control state, true of every model
/// reachable from the initial one: while a tag name or text run is being
/// read, the slot holds the matching kind and is non-empty as soon as one
/// character has been captured.
pub open spec fn buffer_ok(m: TokenizerModel) -> bool {
    match m.state {
        State::ReadOpeningTagName => m.token.kind == TokenKind::OpeningTag
            && m.token.content.len() >= 1,
        State::ReadAttributes => m.token.kind == TokenKind::OpeningTag && m.token.content.len()
            >= 1,
        State::ReadText => m.token.kind == TokenKind::Text && m.token.content.len() >= 1,
        State::ReadClosingTagName => m.token.kind == TokenKind::ClosingTag,
        _ => true,
    }
}

/// Every token emitted from a well-shaped model is well shaped: opening-tag
/// and text tokens are never empty.
pub proof fn lemma_tokens_from_shapes(m: TokenizerModel, s: Seq<char>)
    requires
        buffer_ok(m),
        !m.found,
    ensures
        forall|i: int|
            0 <= i < tokens_from(m, s).len() ==> token_shape_ok(#[trigger] tokens_from(m, s)[i]),
    decreases s.len(),
{
    if s.len() > 0 {
        let m2 = tokenizer_step(m, s[0]);
        if m2.found {
            assert(token_shape_ok(m2.token));
            lemma_tokens_from_shapes(reset_token(m2), s.skip(1));
            assert forall|i: int| 0 <= i < tokens_from(m, s).len() implies token_shape_ok(
                #[trigger] tokens_from(m, s)[i],
            ) by {
                if i > 0 {
                    assert(tokens_from(m, s)[i] == tokens_from(reset_token(m2), s.skip(1))[i - 1]);
                }
            }
        } else {
            assert(buffer_ok(m2));
            lemma_tokens_from_shapes(m2, s.skip(1));
            assert(tokens_from(m, s) == tokens_from(m2, s.skip(1)));
        }
    }
}

/// Each character causes at most one emission, so a stream never holds more
/// tokens than the input holds characters.
pub proof fn lemma_tokens_from_len(m: TokenizerModel, s: Seq<char>)
    ensures
        tokens_from(m, s).len() <= s.len(),
    decreases s.len(),
{
    if s.len() > 0 {
        let m2 = tokenizer_step(m, s[0]);
        if m2.found {
            lemma_tokens_from_len(reset_token(m2), s.skip(1));
        } else {
            lemma_tokens_from_len(m2, s.skip(1));
        }
    }
}

/// What one character does to the stream and to the machine: the step's
/// token is emitted exactly when the step raises the readiness flag, and
/// the machine is left reset exactly in that case.
pub proof fn lemma_single_step(m: TokenizerModel, c: char)
    ensures
        tokens_from(m, seq![c]) == (if tokenizer_step(m, c).found {
            seq![tokenizer_step(m, c).token]
        } else {
            Seq::<TokenModel>::empty()
        }),
        tokenizer_run(m, seq![c]) == (if tokenizer_step(m, c).found {
            reset_token(tokenizer_step(m, c))
        } else {
            tokenizer_step(m, c)
        }),
{
    reveal_with_fuel(tokens_from, 2);
    reveal_with_fuel(tokenizer_run, 2);
    assert(seq![c].skip(1) =~= Seq::<char>::empty());
    if tokenizer_step(m, c).found {
        assert(seq![tokenizer_step(m, c).token] + Seq::<TokenModel>::empty() =~= seq![
            tokenizer_step(m, c).token,
        ]);
    }
}

/// Tokenizing a concatenation is tokenizing the first part, then the second
/// from the model the first left behind.
pub proof fn lemma_tokens_from_concat(m: TokenizerModel, a: Seq<char>, b: Seq<char>)
    ensures
        tokens_from(m, a + b) == tokens_from(m, a) + tokens_from(tokenizer_run(m, a), b),
        tokenizer_run(m, a + b) == tokenizer_run(tokenizer_run(m, a), b),
    decreases a.len(),
{
    if a.len() == 0 {
        assert(a + b =~= b);
        assert(tokens_from(m, a) + tokens_from(tokenizer_run(m, a), b) =~= tokens_from(m, b));
    } else {
        assert((a + b)[0] == a[0]);
        assert((a + b).skip(1) =~= a.skip(1) + b);
        let m2 = tokenizer_step(m, a[0]);
        let m3 = if m2.found {
            reset_token(m2)
        } else {
            m2
        };
        lemma_tokens_from_concat(m3, a.skip(1), b);
        if m2.found {
            assert(tokens_from(m, a + b) =~= seq![m2.token] + tokens_from(m3, a.skip(1) + b));
            assert(seq![m2.token] + (tokens_from(m3, a.skip(1)) + tokens_from(
                tokenizer_run(m3, a.skip(1)),
                b,
            )) =~= (seq![m2.token] + tokens_from(m3, a.skip(1))) + tokens_from(
                tokenizer_run(m3, a.skip(1)),
                b,
            ));
        }
    }
}

/// While an opening tag's name is being read, characters other than `>` and
/// the space that opens the attribute region only accumulate: nothing is
/// emitted and the token grows by exactly those characters.
pub proof fn lemma_opening_name_extends(m: TokenizerModel, s: Seq<char>)
    requires
        m.state == State::ReadOpeningTagName,
        !m.found,
        forall|i: int| 0 <= i < s.len() ==> #[trigger] s[i] != '>' && s[i] != ' ',
    ensures
        tokens_from(m, s) == Seq::<TokenModel>::empty(),
        tokenizer_run(m, s).state == State::ReadOpeningTagName,
        !tokenizer_run(m, s).found,
        tokenizer_run(m, s).token.kind == m.token.kind,
        tokenizer_run(m, s).token.content == m.token.content + s,
    decreases s.len(),
{
    if s.len() == 0 {
        assert(m.token.content + s =~= m.token.content);
    } else {
        let m2 = tokenizer_step(m, s[0]);
        assert forall|i: int| 0 <= i < s.skip(1).len() implies #[trigger] s.skip(1)[i] != '>'
            && s.skip(1)[i] != ' ' by {
            assert(s.skip(1)[i] == s[i + 1]);
        }
        lemma_opening_name_extends(m2, s.skip(1));
        assert(m.token.content.push(s[0]) + s.skip(1) =~= m.token.content + s);
    }
}

/// While a closing tag's name is being read, characters other than `>` only
/// accumulate: nothing is emitted and the token grows by exactly them.
pub proof fn lemma_closing_name_extends(m: TokenizerModel, s: Seq<char>)
    requires
        m.state == State::ReadClosingTagName,
        !m.found,
        forall|i: int| 0 <= i < s.len() ==> #[trigger] s[i] != '>',
    ensures
        tokens_from(m, s) == Seq::<TokenModel>::empty(),
        tokenizer_run(m, s).state == State::ReadClosingTagName,
        !tokenizer_run(m, s).found,
        tokenizer_run(m, s).token.kind == m.token.kind,
        tokenizer_run(m, s).token.content == m.token.content + s,
    decreases s.len(),
{
    if s.len() == 0 {
        assert(m.token.content + s =~= m.token.content);
    } else {
        let m2 = tokenizer_step(m, s[0]);
        assert forall|i: int| 0 <= i < s.skip(1).len() implies #[trigger] s.skip(1)[i] != '>' by {
            assert(s.skip(1)[i] == s[i + 1]);
        }
        lemma_closing_name_extends(m2, s.skip(1));
        assert(m.token.content.push(s[0]) + s.skip(1) =~= m.token.content + s);
    }
}

/// While text is being read, characters other than `<` only accumulate:
/// nothing is emitted and the text token grows by exactly those characters.
pub proof fn lemma_read_text_extends(m: TokenizerModel, s: Seq<char>)
    requires
        m.state == State::ReadText,
        !m.found,
        forall|i: int| 0 <= i < s.len() ==> s[i] != '<',
    ensures
        tokens_from(m, s) == Seq::<TokenModel>::empty(),
        tokenizer_run(m, s).state == State::ReadText,
        !tokenizer_run(m, s).found,
        tokenizer_run(m, s).token.kind == m.token.kind,
        tokenizer_run(m, s).token.content == m.token.content + s,
    decreases s.len(),
{
    if s.len() == 0 {
        assert(m.token.content + s =~= m.token.content);
    } else {
        let m2 = tokenizer_step(m, s[0]);
        assert forall|i: int| 0 <= i < s.skip(1).len() implies s.skip(1)[i] != '<' by {
            assert(s.skip(1)[i] == s[i + 1]);
        }
        lemma_read_text_extends(m2, s.skip(1));
        assert(m.token.content.push(s[0]) + s.skip(1) =~= m.token.content + s);
    }
}

/// Re-tokenizing the text content of a pure-text token leaves it unchanged:
/// fed a string with no `<` from the content-reading state, the machine
/// emits no token and its pending text token holds exactly that string.
pub proof fn lemma_retokenize_text(s: Seq<char>)
    requires
        forall|i: int| 0 <= i < s.len() ==> s[i] != '<',
    ensures
        tokens_from(start_model(State::ReadContent), s) == Seq::<TokenModel>::empty(),
        tokenizer_run(start_model(State::ReadContent), s).token.content == s,
{
    let m = start_model(State::ReadContent);
    if s.len() == 0 {
        assert(m.token.content =~= s);
    } else {
        let m2 = tokenizer_step(m, s[0]);
        assert forall|i: int| 0 <= i < s.skip(1).len() implies s.skip(1)[i] != '<' by {
            assert(s.skip(1)[i] == s[i + 1]);
        }
        lemma_read_text_extends(m2, s.skip(1));
        assert(seq![s[0]] + s.skip(1) =~= s);
    }
}

/// The character-by-character tokenizing machine. Feed it one character at
/// a time with `handle`; after each character, check `token_has_been_found`
/// and, if a token is ready, take it and call `clear_token`.
pub struct Tokenizer {
    pub state: State,
    pub token_has_been_found: bool,
    pub token: Token,
}

impl View for Tokenizer {
    type V = TokenizerModel;

    open spec fn view(&self) -> TokenizerModel {
        TokenizerModel { state: self.state, found: self.token_has_been_found, token: self.token@ }
    }
}

impl Tokenizer {
    pub fn new() -> (r: Self)
        ensures
            r@ == initial_model(),
    {
        Tokenizer::from_state(State::SeekOpeningTag)
    }

    pub fn from_state(state: State) -> (r: Self)
        ensures
            r@ == start_model(state),
    {
        Tokenizer { state: state, token_has_been_found: false, token: Token::opening_tag() }
    }

    /// Tokenize a whole input: the result is exactly the token sequence the
    /// state machine emits over the characters of `content`.
    pub fn get_tokens(content: &str) -> (tokens: Vec<Token>)
        ensures
            views_of(tokens@) == tokens_of(content@),
    {
        let mut tokenizer = Tokenizer::from_state(State::SeekOpeningTag);
        let mut tokens: Vec<Token> = Vec::new();
        let n = content.unicode_len();

        proof {
            assert(content@.skip(0) =~= content@);
            assert(views_of(tokens@) + tokens_from(tokenizer@, content@) =~= tokens_of(content@));
        }
        let mut i: usize = 0;
        while i < n
            invariant
                n == content@.len(),
                i <= n,
                !tokenizer@.found,
                views_of(tokens@) + tokens_from(tokenizer@, content@.skip(i as int)) == tokens_of(
                    content@,
                ),
            decreases n - i,
        {
            let c = content.get_char(i);
            let ghost pre = tokenizer@;
            let ghost toks_pre = tokens@;
            tokenizer.handle(c);
            proof {
                assert(content@.skip(i as int)[0] == content@[i as int]);
                assert(content@.skip(i as int).skip(1) =~= content@.skip(i as int + 1));
            }
            if tokenizer.token_has_been_found() {
                tokens.push(tokenizer.token.clone());
                tokenizer.clear_token();
                proof {
                    let m2 = tokenizer_step(pre, c);
                    assert(views_of(tokens@) =~= views_of(toks_pre) + seq![m2.token]);
                    assert((views_of(toks_pre) + seq![m2.token]) + tokens_from(
                        tokenizer@,
                        content@.skip(i as int + 1),
                    ) =~= views_of(toks_pre) + (seq![m2.token] + tokens_from(
                        tokenizer@,
                        content@.skip(i as int + 1),
                    )));
                }
            }
            i = i + 1;
        }
        proof {
            assert(content@.skip(n as int) =~= Seq::<char>::empty());
            assert(views_of(tokens@) + Seq::<TokenModel>::empty() =~= views_of(tokens@));
        }
        tokens
    }

    /// Consume one character: a single transition of the machine.
    pub fn handle(&mut self, character: char)
        ensures
            final(self)@ == tokenizer_step(old(self)@, character),
    {
        match self.state {
            State::Done => {},
            State::ReadAttributes => self.handle_read_attributes(character),
            State::ReadClosingComment => self.handle_read_closing_comment(character),
            State::ReadClosingCommentDash => self.handle_read_closing_comment_dash(character),
            State::ReadClosingTagName => self.handle_read_closing_tag_name(character),
            State::ReadCommentContent => self.handle_read_comment_content(character),
            State::ReadContent => self.handle_read_content(character),
            State::ReadDoctype => self.handle_read_doctype(character),
            State::ReadOpeningCommentDash => self.handle_read_opening_comment_dash(character),
            State::ReadOpeningCommentOrDoctype => {
                self.handle_read_opening_comment_or_doctype(character)
            },
            State::ReadOpeningTagName => self.handle_read_opening_tag_name(character),
            State::ReadTagName => self.handle_read_tag_name(character),
            State::ReadText => self.handle_read_text(character),
            State::SeekOpeningTag => self.handle_opening_tag(character),
        }
    }

    pub fn token_has_been_found(&self) -> (b: bool)
        ensures
            b == self@.found,
    {
        self.token_has_been_found
    }

    /// Collect the finished token's slot: payload cleared, readiness flag
    /// down, state and kind kept.
    pub fn clear_token(&mut self)
        ensures
            final(self)@ == reset_token(old(self)@),
    {
        self.token.content = String::new();
        self.token_has_been_found = false;
    }

    pub fn handle_opening_tag(&mut self, character: char)
        ensures
            final(self)@ == step_seek_opening_tag(old(self)@, character),
    {
        if character == '<' {
            self.state = State::ReadTagName;
        }
    }

    pub fn handle_read_tag_name(&mut self, character: char)
        ensures
            final(self)@ == step_read_tag_name(old(self)@, character),
    {
        if character == '!' {
            self.state = State::ReadOpeningCommentOrDoctype;
        } else {
            if character == '/' {
                self.token = Token::closing_tag();
                self.state = State::ReadClosingTagName;
            } else {
                self.token = Token::opening_tag();
                self.token.content.push(character);
                self.state = State::ReadOpeningTagName;
                proof {
                    assert(self@.token.content =~= seq![character]);
                }
            }
        }
    }

    pub fn handle_read_opening_tag_name(&mut self, character: char)
        ensures
            final(self)@ == step_read_opening_tag_name(old(self)@, character),
    {
        if character == '>' {
            self.token_has_been_found = true;
            self.state = State::ReadContent;
        } else if character == ' ' {
            self.state = State::ReadAttributes;
        } else {
            self.token.content.push(character);
        }
    }

    pub fn handle_read_attributes(&mut self, character: char)
        ensures
            final(self)@ == step_read_attributes(old(self)@, character),
    {
        if character == '>' {
            self.state = State::ReadContent;
        } else {
            // The character belongs to the attribute region, which is
            // recognized only to find the tag's closing `>`: it is discarded.
        }
    }

    pub fn handle_read_closing_tag_name(&mut self, character: char)
        ensures
            final(self)@ == step_read_closing_tag_name(old(self)@, character),
    {
        if character == '>' {
            self.token_has_been_found = true;
            self.state = State::ReadContent;
        } else {
            self.token.content.push(character);
        }
    }

    pub fn handle_read_content(&mut self, character: char)
        ensures
            final(self)@ == step_read_content(old(self)@, character),
    {
        if character == '<' {
            self.state = State::ReadTagName;
        } else {
            self.token = Token::text();
            self.token.content.push(character);
            self.state = State::ReadText;
            proof {
                assert(self@.token.content =~= seq![character]);
            }
        }
    }

    pub fn handle_read_text(&mut self, character: char)
        ensures
            final(self)@ == step_read_text(old(self)@, character),
    {
        if character == '<' {
            self.token_has_been_found = true;
            self.state = State::ReadTagName;
        } else {
            self.token.content.push(character);
        }
    }

    pub fn handle_read_opening_comment_or_doctype(&mut self, character: char)
        ensures
            final(self)@ == step_read_opening_comment_or_doctype(old(self)@, character),
    {
        if character == '-' {
            self.state = State::ReadOpeningCommentDash;
        } else if character == 'D' {
            self.state = State::ReadDoctype;
        }
    }

    pub fn handle_read_opening_comment_dash(&mut self, character: char)
        ensures
            final(self)@ == step_read_opening_comment_dash(old(self)@, character),
    {
        if character == '-' {
            self.state = State::ReadCommentContent;
        } else {
            self.state = State::Done;
        }
    }

    pub fn handle_read_comment_content(&mut self, character: char)
        ensures
            final(self)@ == step_read_comment_content(old(self)@, character),
    {
        if character == '-' {
            self.state = State::ReadClosingComment;
        }
    }

    pub fn handle_read_closing_comment(&mut self, character: char)
        ensures
            final(self)@ == step_read_closing_comment(old(self)@, character),
    {
        if character == '-' {
            self.state = State::ReadClosingCommentDash;
        } else {
            self.state = State::ReadCommentContent;
        }
    }

    pub fn handle_read_closing_comment_dash(&mut self, character: char)
        ensures
            final(self)@ == step_read_closing_comment_dash(old(self)@, character),
    {
        if character == '>' {
            self.state = State::ReadContent;
        } else {
            self.state = State::ReadCommentContent;
        }
    }

    pub fn handle_read_doctype(&mut self, character: char)
        ensures
            final(self)@ == step_read_doctype(old(self)@, character),
    {
        if character == '>' {
            self.state = State::ReadContent;
        }
    }
}

} // verus!
