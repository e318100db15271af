use event_parser::event::{errors, Event, ParseError};
use event_parser::grammar::root;
use event_parser::parser::Parser;
use event_parser::source::Source;
use event_parser::syntax::{SyntaxKind, TextRange, Token};

fn token(kind: SyntaxKind, start: u32, end: u32) -> Token {
    Token { kind, range: TextRange { start, end } }
}

fn parse(tokens: &[Token]) -> Vec<Event> {
    Parser::new(Source::new(tokens)).parse()
}

#[test]
fn parse_nothing() {
    let events = parse(&[]);
    assert_eq!(events, vec![Event::StartNode { kind: SyntaxKind::Root }, Event::Finish]);
    assert_eq!(errors(&events).len(), 0);
}

#[test]
fn parse_whitespace() {
    let events = parse(&[token(SyntaxKind::Whitespace, 0, 3)]);
    assert_eq!(
        events,
        vec![Event::StartNode { kind: SyntaxKind::Root }, Event::AddToken, Event::Finish]
    );
    assert_eq!(errors(&events).len(), 0);
}

#[test]
fn parse_comment() {
    let events = parse(&[token(SyntaxKind::Comment, 0, 8)]);
    assert_eq!(
        events,
        vec![Event::StartNode { kind: SyntaxKind::Root }, Event::AddToken, Event::Finish]
    );
    assert_eq!(errors(&events).len(), 0);
}

#[test]
fn parse_item_keyword() {
    let events = parse(&[token(SyntaxKind::SetKw, 0, 3)]);
    assert_eq!(
        events,
        vec![Event::StartNode { kind: SyntaxKind::Root }, Event::AddToken, Event::Finish]
    );
}

#[test]
fn parse_unexpected_token_is_wrapped_and_parsing_resumes() {
    let events = parse(&[
        token(SyntaxKind::Ident, 0, 1),
        token(SyntaxKind::Whitespace, 1, 2),
        token(SyntaxKind::SetKw, 2, 5),
    ]);
    assert_eq!(
        events,
        vec![
            Event::StartNode { kind: SyntaxKind::Root },
            Event::Error(ParseError {
                expected: vec![SyntaxKind::SetKw],
                found: Some(SyntaxKind::Ident),
                range: TextRange { start: 0, end: 1 },
            }),
            Event::StartNode { kind: SyntaxKind::Error },
            Event::AddToken,
            Event::Finish,
            Event::AddToken,
            Event::AddToken,
            Event::Finish,
        ]
    );
    assert_eq!(errors(&events).len(), 1);
}

#[test]
fn root_consumes_all_input_and_returns_its_node() {
    let tokens = [token(SyntaxKind::Number, 0, 1), token(SyntaxKind::Plus, 1, 2)];
    let mut p = Parser::new(Source::new(&tokens));
    let done = root(&mut p);
    assert!(p.at_end());
    let wrapper = done.precede(&mut p);
    wrapper.complete(&mut p, SyntaxKind::Root);
    let events = p.finish();
    assert_eq!(events.len(), 12);
    assert_eq!(events[0], Event::StartNode { kind: SyntaxKind::Root });
    assert_eq!(events[9], Event::Finish);
    assert_eq!(events[10], Event::StartNodeAt { kind: SyntaxKind::Root, target: 0 });
    assert_eq!(events[11], Event::Finish);
    assert_eq!(errors(&events).len(), 2);
}

#[test]
fn start_appends_a_placeholder() {
    let mut p = Parser::new(Source::new(&[]));
    let m = p.start();
    let inner = p.start();
    inner.complete(&mut p, SyntaxKind::Literal);
    m.complete(&mut p, SyntaxKind::ParenExpr);
    let events = p.finish();
    assert_eq!(
        events,
        vec![
            Event::StartNode { kind: SyntaxKind::ParenExpr },
            Event::StartNode { kind: SyntaxKind::Literal },
            Event::Finish,
            Event::Finish,
        ]
    );
}

#[test]
fn bump_consumes_one_token() {
    let tokens = [token(SyntaxKind::Ident, 0, 1), token(SyntaxKind::Number, 1, 2)];
    let mut p = Parser::new(Source::new(&tokens));
    assert_eq!(p.peek(), Some(SyntaxKind::Ident));
    p.bump();
    assert_eq!(p.peek(), Some(SyntaxKind::Number));
    assert!(!p.at_end());
    p.bump();
    assert_eq!(p.peek(), None);
    assert!(p.at_end());
}

#[test]
fn at_reports_the_current_kind() {
    let tokens = [token(SyntaxKind::Ident, 0, 1)];
    let mut p = Parser::new(Source::new(&tokens));
    assert!(p.at(SyntaxKind::Ident));
    assert!(!p.at(SyntaxKind::Number));
    p.bump();
    assert!(!p.at(SyntaxKind::Ident));
}

#[test]
fn at_set_tests_membership() {
    let tokens = [token(SyntaxKind::Plus, 0, 1)];
    let mut p = Parser::new(Source::new(&tokens));
    assert!(p.at_set(&[SyntaxKind::Minus, SyntaxKind::Plus]));
    assert!(!p.at_set(&[SyntaxKind::Minus, SyntaxKind::Star]));
    assert!(!p.at_set(&[]));
    p.bump();
    assert!(!p.at_set(&[SyntaxKind::Minus, SyntaxKind::Plus]));
}

#[test]
fn expect_consumes_a_matching_token() {
    let tokens = [token(SyntaxKind::SetKw, 0, 3)];
    let mut p = Parser::new(Source::new(&tokens));
    p.expect(SyntaxKind::SetKw);
    assert!(p.at_end());
    let events = p.finish();
    assert_eq!(events, vec![Event::AddToken]);
    assert_eq!(errors(&events).len(), 0);
}

#[test]
fn expect_wraps_an_unexpected_token() {
    let tokens = [token(SyntaxKind::Number, 4, 6), token(SyntaxKind::Ident, 6, 7)];
    let mut p = Parser::new(Source::new(&tokens));
    p.expect(SyntaxKind::SetKw);
    assert_eq!(p.peek(), Some(SyntaxKind::Ident));
    let events = p.finish();
    assert_eq!(
        events,
        vec![
            Event::Error(ParseError {
                expected: vec![SyntaxKind::SetKw],
                found: Some(SyntaxKind::Number),
                range: TextRange { start: 4, end: 6 },
            }),
            Event::StartNode { kind: SyntaxKind::Error },
            Event::AddToken,
            Event::Finish,
        ]
    );
}

#[test]
fn expect_leaves_a_recovery_token_in_place() {
    let tokens = [token(SyntaxKind::SetKw, 0, 3)];
    let mut p = Parser::new(Source::new(&tokens));
    p.expect(SyntaxKind::Ident);
    assert_eq!(p.peek(), Some(SyntaxKind::SetKw));
    let m = p.start();
    m.complete(&mut p, SyntaxKind::VariableDef);
    let events = p.finish();
    assert_eq!(
        events,
        vec![
            Event::Error(ParseError {
                expected: vec![SyntaxKind::Ident],
                found: Some(SyntaxKind::SetKw),
                range: TextRange { start: 0, end: 3 },
            }),
            Event::StartNode { kind: SyntaxKind::VariableDef },
            Event::Finish,
        ]
    );
}

#[test]
fn expected_kinds_accumulate_until_a_token_is_consumed() {
    let tokens = [
        token(SyntaxKind::Number, 0, 1),
        token(SyntaxKind::Star, 1, 2),
        token(SyntaxKind::Star, 2, 3),
    ];
    let mut p = Parser::new(Source::new(&tokens));
    assert!(!p.at(SyntaxKind::Ident));
    assert!(!p.at(SyntaxKind::LParen));
    assert!(!p.at(SyntaxKind::Ident));
    p.error();
    assert!(!p.at(SyntaxKind::Plus));
    p.bump();
    p.error();
    let events = p.finish();
    let found = errors(&events);
    assert_eq!(found.len(), 2);
    assert_eq!(
        found[0].expected,
        vec![SyntaxKind::Ident, SyntaxKind::LParen, SyntaxKind::Ident]
    );
    assert_eq!(found[0].found, Some(SyntaxKind::Number));
    assert_eq!(found[1].expected, vec![]);
    assert_eq!(found[1].found, Some(SyntaxKind::Star));
}

#[test]
fn error_takes_the_expected_kinds_with_it() {
    let tokens = [token(SyntaxKind::SetKw, 0, 3)];
    let mut p = Parser::new(Source::new(&tokens));
    assert!(!p.at(SyntaxKind::Ident));
    p.error();
    p.error();
    let events = p.finish();
    let found = errors(&events);
    assert_eq!(found.len(), 2);
    assert_eq!(found[0].expected, vec![SyntaxKind::Ident]);
    assert_eq!(found[1].expected, vec![]);
}

#[test]
fn expect_on_empty_input_reports_end_of_input() {
    let mut p = Parser::new(Source::new(&[]));
    p.expect(SyntaxKind::SetKw);
    let events = p.parse();
    let report = ParseError {
        expected: vec![SyntaxKind::SetKw],
        found: None,
        range: TextRange { start: 0, end: 0 },
    };
    assert_eq!(errors(&events), vec![&report]);
    assert_eq!(
        events,
        vec![
            Event::Error(report.clone()),
            Event::StartNode { kind: SyntaxKind::Root },
            Event::Finish,
        ]
    );
}

#[test]
fn error_at_end_of_input_uses_the_last_token_range() {
    let tokens = [token(SyntaxKind::SetKw, 0, 3), token(SyntaxKind::Ident, 4, 9)];
    let mut p = Parser::new(Source::new(&tokens));
    p.bump();
    p.bump();
    p.expect(SyntaxKind::Equals);
    assert!(p.at_end());
    let events = p.finish();
    let report = ParseError {
        expected: vec![SyntaxKind::Equals],
        found: None,
        range: TextRange { start: 4, end: 9 },
    };
    assert_eq!(events, vec![Event::AddToken, Event::AddToken, Event::Error(report)]);
}

#[test]
fn repeated_errors_stop_after_one_step_per_token() {
    let tokens = [
        token(SyntaxKind::Plus, 0, 1),
        token(SyntaxKind::Star, 1, 2),
        token(SyntaxKind::RParen, 2, 3),
    ];
    let mut p = Parser::new(Source::new(&tokens));
    let mut steps = 0;
    while !p.at_end() {
        p.error();
        steps += 1;
        assert!(steps <= tokens.len());
    }
    assert_eq!(steps, 3);
    p.error();
    assert!(p.at_end());
    let events = p.finish();
    assert_eq!(errors(&events).len(), 4);
    assert_eq!(events.iter().filter(|e| **e == Event::AddToken).count(), 3);
}

#[test]
fn repeated_errors_rest_at_a_recovery_point() {
    let tokens = [
        token(SyntaxKind::Plus, 0, 1),
        token(SyntaxKind::SetKw, 1, 4),
        token(SyntaxKind::Star, 4, 5),
    ];
    let mut p = Parser::new(Source::new(&tokens));
    p.error();
    assert_eq!(p.peek(), Some(SyntaxKind::SetKw));
    p.error();
    p.error();
    assert_eq!(p.peek(), Some(SyntaxKind::SetKw));
    let events = p.finish();
    assert_eq!(errors(&events).len(), 3);
    assert_eq!(events.len(), 6);
}

#[test]
fn errors_lists_the_diagnostics_in_order() {
    let first = ParseError {
        expected: vec![SyntaxKind::Ident],
        found: Some(SyntaxKind::Plus),
        range: TextRange { start: 0, end: 1 },
    };
    let second = ParseError { expected: vec![], found: None, range: TextRange { start: 0, end: 1 } };
    let events = vec![
        Event::StartNode { kind: SyntaxKind::Root },
        Event::Error(first.clone()),
        Event::AddToken,
        Event::Error(second.clone()),
        Event::Finish,
    ];
    assert_eq!(errors(&events), vec![&first, &second]);
    assert_eq!(errors(&Vec::new()).len(), 0);
}

#[test]
fn finish_hands_out_the_log_as_it_stands() {
    let tokens = [token(SyntaxKind::Ident, 0, 1)];
    let mut p = Parser::new(Source::new(&tokens));
    assert_eq!(Parser::new(Source::new(&tokens)).finish(), vec![]);
    let _open = p.start();
    p.bump();
    assert_eq!(p.finish(), vec![Event::Placeholder, Event::AddToken]);
}
