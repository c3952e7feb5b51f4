use markup_dom::parser::context::Context;
use markup_dom::parser::state::State;

#[test]
fn context_test_clear_every_token_related_buffer() {
    let mut context = Context::new();
    context.token_name.push_str("div");
    context.token_text_content.push_str("Hello Hppy!");
    context.clear_token();

    assert_eq!(context.token_name.len(), 0);
    assert_eq!(context.token_text_content.len(), 0);
}

#[test]
fn context_test_clear_token_notification() {
    let mut context = Context::new();
    context.token_has_been_found = true;
    context.clear_token();

    assert!(context.token_has_been_found == false);
}

#[test]
fn context_test_next_state_when_process_an_opening_chevron() {
    let mut context = Context::from_state(State::SeekOpeningTag);
    context.handle_opening_tag('<');
    assert_eq!(context.state, State::ReadTagName);

    let mut context = Context::from_state(State::ReadContent);
    context.handle_read_content('<');
    assert_eq!(context.state, State::ReadTagName);

    let mut context = Context::from_state(State::ReadText);
    context.handle_read_text('<');
    assert_eq!(context.state, State::ReadTagName);
}

#[test]
fn context_test_next_state_when_process_any_other_character() {
    let mut context = Context::from_state(State::SeekOpeningTag);
    context.handle_opening_tag('a');
    assert_eq!(context.state, State::SeekOpeningTag);

    let mut context = Context::from_state(State::ReadTagName);
    context.handle_read_tag_name('a');
    assert_eq!(context.state, State::ReadOpeningTagName);

    let mut context = Context::from_state(State::ReadOpeningTagName);
    context.handle_read_opening_tag_name('a');
    assert_eq!(context.state, State::ReadOpeningTagName);

    let mut context = Context::from_state(State::ReadAttributes);
    context.handle_read_attributes('a');
    assert_eq!(context.state, State::ReadAttributes);

    let mut context = Context::from_state(State::ReadClosingTagName);
    context.handle_read_closing_tag_name('a');
    assert_eq!(context.state, State::ReadClosingTagName);

    let mut context = Context::from_state(State::ReadContent);
    context.handle_read_content('a');
    assert_eq!(context.state, State::ReadText);

    let mut context = Context::from_state(State::ReadText);
    context.handle_read_text('a');
    assert_eq!(context.state, State::ReadText);

    let mut context = Context::from_state(State::ReadOpeningCommentOrDoctype);
    context.handle_read_opening_comment_or_doctype('a');
    assert_eq!(context.state, State::ReadOpeningCommentOrDoctype);

    let mut context = Context::from_state(State::ReadOpeningCommentDash);
    context.handle_read_opening_comment_dash('a');
    assert_eq!(context.state, State::Done);

    let mut context = Context::from_state(State::ReadCommentContent);
    context.handle_read_comment_content('a');
    assert_eq!(context.state, State::ReadCommentContent);

    let mut context = Context::from_state(State::ReadClosingComment);
    context.handle_read_closing_comment('a');
    assert_eq!(context.state, State::ReadCommentContent);

    let mut context = Context::from_state(State::ReadDoctype);
    context.handle_read_doctype('a');
    assert_eq!(context.state, State::ReadDoctype);
}

#[test]
fn context_test_next_state_when_process_an_exclamation_mark() {
    let mut context = Context::from_state(State::ReadTagName);
    context.handle_read_tag_name('!');
    assert_eq!(context.state, State::ReadOpeningCommentOrDoctype);
}

#[test]
fn test_token_name_is_not_amended_when_process_an_exclamation_mark() {
    let mut context = Context::from_state(State::ReadTagName);
    context.handle_read_tag_name('!');
    assert_eq!(context.token_name, "");
}

#[test]
fn context_test_next_state_when_process_a_slash() {
    let mut context = Context::from_state(State::ReadTagName);
    context.handle_read_tag_name('/');
    assert_eq!(context.state, State::ReadClosingTagName);
}

#[test]
fn test_token_name_is_amended_when_process_a_slash() {
    let mut context = Context::from_state(State::ReadTagName);
    context.handle_read_tag_name('/');
    assert_eq!(context.token_name, "/");
}

#[test]
fn context_test_token_name_is_amended_when_process_any_other_character() {
    let mut context = Context::from_state(State::ReadTagName);
    context.handle_read_tag_name('a');
    assert_eq!(context.token_name, "a");

    let mut context = Context::from_state(State::ReadOpeningTagName);
    context.handle_read_opening_tag_name('a');
    assert_eq!(context.token_name, "a");

    let mut context = Context::from_state(State::ReadClosingTagName);
    context.handle_read_closing_tag_name('a');
    assert_eq!(context.token_name, "a");
}

#[test]
fn context_test_next_state_when_process_a_closing_chevron() {
    let mut context = Context::from_state(State::ReadOpeningTagName);
    context.handle_read_opening_tag_name('>');
    assert_eq!(context.state, State::ReadContent);

    let mut context = Context::from_state(State::ReadAttributes);
    context.handle_read_attributes('>');
    assert_eq!(context.state, State::ReadContent);

    let mut context = Context::from_state(State::ReadClosingTagName);
    context.handle_read_closing_tag_name('>');
    assert_eq!(context.state, State::ReadContent);

    let mut context = Context::from_state(State::ReadClosingCommentDash);
    context.handle_read_closing_comment_dash('>');
    assert_eq!(context.state, State::ReadContent);

    let mut context = Context::from_state(State::ReadDoctype);
    context.handle_read_doctype('>');
    assert_eq!(context.state, State::ReadContent);
}

#[test]
fn context_test_notify_that_a_token_has_been_found_when_process_a_closing_chevron() {
    let mut context = Context::from_state(State::ReadOpeningTagName);
    context.handle_read_opening_tag_name('>');
    assert!(context.token_has_been_found);
}

#[test]
fn context_test_next_state_when_process_a_whitespace() {
    let mut context = Context::from_state(State::ReadOpeningTagName);
    context.handle_read_opening_tag_name(' ');
    assert_eq!(context.state, State::ReadAttributes);
}

#[test]
fn context_test_notify_a_token_has_been_found_when_process_an_opening_chevron() {
    let mut context = Context::from_state(State::ReadText);
    context.handle_read_text('<');
    assert!(context.token_has_been_found);
}

#[test]
fn context_test_next_state_when_process_a_dash() {
    let mut context = Context::from_state(State::ReadOpeningCommentOrDoctype);
    context.handle_read_opening_comment_or_doctype('-');
    assert_eq!(context.state, State::ReadOpeningCommentDash);

    let mut context = Context::from_state(State::ReadOpeningCommentDash);
    context.handle_read_opening_comment_dash('-');
    assert_eq!(context.state, State::ReadCommentContent);

    let mut context = Context::from_state(State::ReadCommentContent);
    context.handle_read_comment_content('-');
    assert_eq!(context.state, State::ReadClosingComment);

    let mut context = Context::from_state(State::ReadClosingComment);
    context.handle_read_closing_comment('-');
    assert_eq!(context.state, State::ReadClosingCommentDash);
}

#[test]
fn context_test_next_state_when_process_a_d() {
    let mut context = Context::from_state(State::ReadOpeningCommentOrDoctype);
    context.handle_read_opening_comment_or_doctype('D');
    assert_eq!(context.state, State::ReadDoctype);
}

#[test]
fn test_next_state_when_process_any_other_character() {
    let mut context = Context::from_state(State::ReadTagName);
    context.handle_read_tag_name('a');
    assert_eq!(context.state, State::ReadOpeningTagName);
}

#[test]
fn test_token_name_is_amended_when_process_any_other_character() {
    let mut context = Context::from_state(State::ReadOpeningTagName);
    context.handle_read_opening_tag_name('a');
    assert_eq!(context.token_name, "a");
}

#[test]
fn test_next_state_when_process_a_closing_chevron() {
    let mut context = Context::from_state(State::ReadAttributes);
    context.handle_read_attributes('>');
    assert_eq!(context.state, State::ReadContent);
}

#[test]
fn test_next_state_when_process_an_opening_chevron() {
    let mut context = Context::from_state(State::ReadContent);
    context.handle_read_content('<');
    assert_eq!(context.state, State::ReadTagName);
}

#[test]
fn test_next_state_when_process_a_dash() {
    let mut context = Context::from_state(State::ReadOpeningCommentDash);
    context.handle_read_opening_comment_dash('-');
    assert_eq!(context.state, State::ReadCommentContent);
}

#[test]
fn context_test_next_state_when_process_with_any_other_character() {
    let mut context = Context::from_state(State::ReadClosingCommentDash);
    context.handle_read_closing_comment_dash('a');
    assert_eq!(context.state, State::ReadCommentContent);
}
