use event_parser::source::Source;
use event_parser::syntax::{SyntaxKind, TextRange, Token, RECOVERY_SET};

fn token(kind: SyntaxKind, start: u32, end: u32) -> Token {
    Token { kind, range: TextRange { start, end } }
}

#[test]
fn source_hands_out_tokens_in_order() {
    let tokens = [token(SyntaxKind::SetKw, 0, 3), token(SyntaxKind::Ident, 4, 5)];
    let mut source = Source::new(&tokens);
    assert_eq!(source.peek_kind(), Some(SyntaxKind::SetKw));
    assert_eq!(source.peek_token(), Some(tokens[0]));
    assert_eq!(source.next_token(), Some(tokens[0]));
    assert_eq!(source.peek_kind(), Some(SyntaxKind::Ident));
    assert_eq!(source.next_token(), Some(tokens[1]));
    assert_eq!(source.peek_kind(), None);
    assert_eq!(source.peek_token(), None);
    assert_eq!(source.next_token(), None);
    assert_eq!(source.next_token(), None);
}

#[test]
fn source_knows_the_last_token_range() {
    let tokens = [token(SyntaxKind::SetKw, 0, 3), token(SyntaxKind::Ident, 4, 5)];
    let source = Source::new(&tokens);
    assert_eq!(source.last_token_range(), Some(TextRange { start: 4, end: 5 }));
    assert_eq!(Source::new(&[]).last_token_range(), None);
}

#[test]
fn empty_range_is_at_position_zero() {
    assert_eq!(TextRange::empty(), TextRange { start: 0, end: 0 });
}

#[test]
fn trivia_is_whitespace_and_comments() {
    assert!(SyntaxKind::Whitespace.is_trivia());
    assert!(SyntaxKind::Comment.is_trivia());
    assert!(!SyntaxKind::SetKw.is_trivia());
    assert!(!SyntaxKind::Error.is_trivia());
}

#[test]
fn recovery_set_holds_the_item_keyword() {
    assert_eq!(RECOVERY_SET, [SyntaxKind::SetKw]);
}
