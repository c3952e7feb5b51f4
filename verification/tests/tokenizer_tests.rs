use markup_dom::parser::state::State;
use markup_dom::parser::tokenizer::{TokenKind, Tokenizer};

#[test]
fn get_tokens() {
    let tokens = Tokenizer::get_tokens("<div>Hello Hppy</div>");
    assert_eq!(tokens.len(), 3);
    assert_eq!(tokens[0].kind, TokenKind::OpeningTag);
    assert_eq!(tokens[0].content, "div");
    assert_eq!(tokens[1].kind, TokenKind::Text);
    assert_eq!(tokens[1].content, "Hello Hppy");
    assert_eq!(tokens[2].kind, TokenKind::ClosingTag);
    assert_eq!(tokens[2].content, "div");
}

#[test]
fn tokenizer_test_clear_every_token_related_buffer() {
    let mut tokenizer = Tokenizer::new();
    tokenizer.token.content.push_str("div");
    tokenizer.clear_token();

    assert_eq!(tokenizer.token.content.len(), 0);
}

#[test]
fn tokenizer_test_clear_token_notification() {
    let mut tokenizer = Tokenizer::new();
    tokenizer.token_has_been_found = true;
    tokenizer.clear_token();

    assert!(tokenizer.token_has_been_found == false);
}

#[test]
fn tokenizer_test_next_state_when_process_an_opening_chevron() {
    let mut tokenizer = Tokenizer::from_state(State::SeekOpeningTag);
    tokenizer.handle_opening_tag('<');
    assert_eq!(tokenizer.state, State::ReadTagName);

    let mut tokenizer = Tokenizer::from_state(State::ReadContent);
    tokenizer.handle_read_content('<');
    assert_eq!(tokenizer.state, State::ReadTagName);

    let mut tokenizer = Tokenizer::from_state(State::ReadText);
    tokenizer.handle_read_text('<');
    assert_eq!(tokenizer.state, State::ReadTagName);
}

#[test]
fn tokenizer_test_next_state_when_process_any_other_character() {
    let mut tokenizer = Tokenizer::from_state(State::SeekOpeningTag);
    tokenizer.handle_opening_tag('a');
    assert_eq!(tokenizer.state, State::SeekOpeningTag);

    let mut tokenizer = Tokenizer::from_state(State::ReadTagName);
    tokenizer.handle_read_tag_name('a');
    assert_eq!(tokenizer.state, State::ReadOpeningTagName);

    let mut tokenizer = Tokenizer::from_state(State::ReadOpeningTagName);
    tokenizer.handle_read_opening_tag_name('a');
    assert_eq!(tokenizer.state, State::ReadOpeningTagName);

    let mut tokenizer = Tokenizer::from_state(State::ReadAttributes);
    tokenizer.handle_read_attributes('a');
    assert_eq!(tokenizer.state, State::ReadAttributes);

    let mut tokenizer = Tokenizer::from_state(State::ReadClosingTagName);
    tokenizer.handle_read_closing_tag_name('a');
    assert_eq!(tokenizer.state, State::ReadClosingTagName);

    let mut tokenizer = Tokenizer::from_state(State::ReadContent);
    tokenizer.handle_read_content('a');
    assert_eq!(tokenizer.state, State::ReadText);

    let mut tokenizer = Tokenizer::from_state(State::ReadText);
    tokenizer.handle_read_text('a');
    assert_eq!(tokenizer.state, State::ReadText);

    let mut tokenizer = Tokenizer::from_state(State::ReadOpeningCommentOrDoctype);
    tokenizer.handle_read_opening_comment_or_doctype('a');
    assert_eq!(tokenizer.state, State::ReadOpeningCommentOrDoctype);

    let mut tokenizer = Tokenizer::from_state(State::ReadOpeningCommentDash);
    tokenizer.handle_read_opening_comment_dash('a');
    assert_eq!(tokenizer.state, State::Done);

    let mut tokenizer = Tokenizer::from_state(State::ReadCommentContent);
    tokenizer.handle_read_comment_content('a');
    assert_eq!(tokenizer.state, State::ReadCommentContent);

    let mut tokenizer = Tokenizer::from_state(State::ReadClosingComment);
    tokenizer.handle_read_closing_comment('a');
    assert_eq!(tokenizer.state, State::ReadCommentContent);

    let mut tokenizer = Tokenizer::from_state(State::ReadDoctype);
    tokenizer.handle_read_doctype('a');
    assert_eq!(tokenizer.state, State::ReadDoctype);
}

#[test]
fn tokenizer_test_next_state_when_process_an_exclamation_mark() {
    let mut tokenizer = Tokenizer::from_state(State::ReadTagName);
    tokenizer.handle_read_tag_name('!');
    assert_eq!(tokenizer.state, State::ReadOpeningCommentOrDoctype);
}

#[test]
fn test_token_content_is_empty_when_process_an_exclamation_mark() {
    let mut tokenizer = Tokenizer::from_state(State::ReadTagName);
    tokenizer.handle_read_tag_name('!');
    assert_eq!(tokenizer.token.content, "");
}

#[test]
fn tokenizer_test_next_state_when_process_a_slash() {
    let mut tokenizer = Tokenizer::from_state(State::ReadTagName);
    tokenizer.handle_read_tag_name('/');
    assert_eq!(tokenizer.state, State::ReadClosingTagName);
}

#[test]
fn test_set_the_current_token_as_a_closing_tag_when_process_a_slash() {
    let mut tokenizer = Tokenizer::from_state(State::ReadTagName);
    tokenizer.handle_read_tag_name('/');
    assert_eq!(tokenizer.token.kind, TokenKind::ClosingTag);
}

#[test]
fn test_token_content_is_empty_when_process_a_slash() {
    let mut tokenizer = Tokenizer::from_state(State::ReadTagName);
    tokenizer.handle_read_tag_name('/');
    assert_eq!(tokenizer.token.content, "");
}

#[test]
fn tokenizer_test_token_name_is_amended_when_process_any_other_character() {
    let mut tokenizer = Tokenizer::from_state(State::ReadTagName);
    tokenizer.handle_read_tag_name('a');
    assert_eq!(tokenizer.token.content, "a");

    let mut tokenizer = Tokenizer::from_state(State::ReadOpeningTagName);
    tokenizer.handle_read_opening_tag_name('a');
    assert_eq!(tokenizer.token.content, "a");

    let mut tokenizer = Tokenizer::from_state(State::ReadClosingTagName);
    tokenizer.handle_read_closing_tag_name('a');
    assert_eq!(tokenizer.token.content, "a");

    let mut tokenizer = Tokenizer::from_state(State::ReadContent);
    tokenizer.handle_read_content('a');
    assert_eq!(tokenizer.token.content, "a");

    let mut tokenizer = Tokenizer::from_state(State::ReadText);
    tokenizer.handle_read_text('a');
    assert_eq!(tokenizer.token.content, "a");
}

#[test]
fn test_set_the_current_token_as_a_opening_tag_when_process_any_other_character() {
    let mut tokenizer = Tokenizer::from_state(State::ReadTagName);
    tokenizer.handle_read_tag_name('a');
    assert_eq!(tokenizer.token.kind, TokenKind::OpeningTag);
}

#[test]
fn tokenizer_test_next_state_when_process_a_closing_chevron() {
    let mut tokenizer = Tokenizer::from_state(State::ReadOpeningTagName);
    tokenizer.handle_read_opening_tag_name('>');
    assert_eq!(tokenizer.state, State::ReadContent);

    let mut tokenizer = Tokenizer::from_state(State::ReadAttributes);
    tokenizer.handle_read_attributes('>');
    assert_eq!(tokenizer.state, State::ReadContent);

    let mut tokenizer = Tokenizer::from_state(State::ReadClosingTagName);
    tokenizer.handle_read_closing_tag_name('>');
    assert_eq!(tokenizer.state, State::ReadContent);

    let mut tokenizer = Tokenizer::from_state(State::ReadClosingCommentDash);
    tokenizer.handle_read_closing_comment_dash('>');
    assert_eq!(tokenizer.state, State::ReadContent);

    let mut tokenizer = Tokenizer::from_state(State::ReadDoctype);
    tokenizer.handle_read_doctype('>');
    assert_eq!(tokenizer.state, State::ReadContent);
}

#[test]
fn tokenizer_test_notify_that_a_token_has_been_found_when_process_a_closing_chevron() {
    let mut tokenizer = Tokenizer::from_state(State::ReadOpeningTagName);
    tokenizer.handle_read_opening_tag_name('>');
    assert!(tokenizer.token_has_been_found);
}

#[test]
fn tokenizer_test_next_state_when_process_a_whitespace() {
    let mut tokenizer = Tokenizer::from_state(State::ReadOpeningTagName);
    tokenizer.handle_read_opening_tag_name(' ');
    assert_eq!(tokenizer.state, State::ReadAttributes);
}

#[test]
fn test_token_type_is_set_to_text_when_process_any_other_character() {
    let mut tokenizer = Tokenizer::from_state(State::ReadContent);
    tokenizer.handle_read_content('a');
    assert_eq!(tokenizer.token.kind, TokenKind::Text);
}

#[test]
fn tokenizer_test_notify_a_token_has_been_found_when_process_an_opening_chevron() {
    let mut tokenizer = Tokenizer::from_state(State::ReadText);
    tokenizer.handle_read_text('<');
    assert!(tokenizer.token_has_been_found);
}

#[test]
fn tokenizer_test_next_state_when_process_a_dash() {
    let mut tokenizer = Tokenizer::from_state(State::ReadOpeningCommentOrDoctype);
    tokenizer.handle_read_opening_comment_or_doctype('-');
    assert_eq!(tokenizer.state, State::ReadOpeningCommentDash);

    let mut tokenizer = Tokenizer::from_state(State::ReadOpeningCommentDash);
    tokenizer.handle_read_opening_comment_dash('-');
    assert_eq!(tokenizer.state, State::ReadCommentContent);

    let mut tokenizer = Tokenizer::from_state(State::ReadCommentContent);
    tokenizer.handle_read_comment_content('-');
    assert_eq!(tokenizer.state, State::ReadClosingComment);

    let mut tokenizer = Tokenizer::from_state(State::ReadClosingComment);
    tokenizer.handle_read_closing_comment('-');
    assert_eq!(tokenizer.state, State::ReadClosingCommentDash);
}

#[test]
fn tokenizer_test_next_state_when_process_a_d() {
    let mut tokenizer = Tokenizer::from_state(State::ReadOpeningCommentOrDoctype);
    tokenizer.handle_read_opening_comment_or_doctype('D');
    assert_eq!(tokenizer.state, State::ReadDoctype);
}

#[test]
fn tokenizer_test_next_state_when_process_with_any_other_character() {
    let mut tokenizer = Tokenizer::from_state(State::ReadClosingCommentDash);
    tokenizer.handle_read_closing_comment_dash('a');
    assert_eq!(tokenizer.state, State::ReadCommentContent);
}
