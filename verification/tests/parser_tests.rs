use minicc::node::{Node, NodeKind};
use minicc::parser::Parser;
use minicc::token::Token;

/// Unwraps the single statement of the implicit top-level block.
fn top_statement(tree: Node) -> Node {
    match tree.kind {
        NodeKind::Block(mut stmts) => {
            assert_eq!(stmts.len(), 1);
            stmts.remove(0)
        }
        other => panic!("expected the implicit block, got {:?}", other),
    }
}

#[test]
fn test_number() {
    let (tree, _) = Parser::new(vec![
        Token::LeftBrace,
        Token::Num(42),
        Token::Semicolon,
        Token::RightBrace,
        Token::Eof,
    ])
    .parse()
    .unwrap();
    // The braced group is one block statement of the implicit top-level
    // block; it holds a single expression statement around the literal.
    let block = top_statement(tree);
    match block.kind {
        NodeKind::Block(stmts) => {
            assert_eq!(stmts.len(), 1);
            match &stmts[0].kind {
                NodeKind::ExpressionStatement(e) => match e.kind {
                    NodeKind::Num(42) => {}
                    ref other => panic!("expected Num(42), got {:?}", other),
                },
                other => panic!("expected an expression statement, got {:?}", other),
            }
        }
        other => panic!("expected a block, got {:?}", other),
    }
}

#[test]
fn test_precedence_tree() {
    // 5+6*7 parses as 5 + (6*7).
    let (tree, _) = Parser::new(vec![
        Token::Num(5),
        Token::Plus,
        Token::Num(6),
        Token::Star,
        Token::Num(7),
        Token::Semicolon,
        Token::Eof,
    ])
    .parse()
    .unwrap();
    let stmt = top_statement(tree);
    match stmt.kind {
        NodeKind::ExpressionStatement(e) => match e.kind {
            NodeKind::Add(l, r) => {
                assert!(matches!(l.kind, NodeKind::Num(5)));
                assert!(matches!(r.kind, NodeKind::Multiply(_, _)));
            }
            other => panic!("expected Add at the top, got {:?}", other),
        },
        other => panic!("expected an expression statement, got {:?}", other),
    }
}

#[test]
fn test_greater_than_swaps_operands() {
    // a > b has no node kind of its own: it becomes LessThan(b, a).
    let (tree, _) = Parser::new(vec![
        Token::Num(1),
        Token::RightAngleBracket,
        Token::Num(2),
        Token::Semicolon,
        Token::Eof,
    ])
    .parse()
    .unwrap();
    let stmt = top_statement(tree);
    match stmt.kind {
        NodeKind::ExpressionStatement(e) => match e.kind {
            NodeKind::LessThan(l, r) => {
                assert!(matches!(l.kind, NodeKind::Num(2)));
                assert!(matches!(r.kind, NodeKind::Num(1)));
            }
            other => panic!("expected the swapped LessThan, got {:?}", other),
        },
        other => panic!("expected an expression statement, got {:?}", other),
    }
}

#[test]
fn test_locals_first_occurrence_order() {
    let (_, locals) = Parser::new(vec![
        Token::Ident(String::from("b")),
        Token::Assign,
        Token::Ident(String::from("a")),
        Token::Semicolon,
        Token::Ident(String::from("a")),
        Token::Semicolon,
        Token::Eof,
    ])
    .parse()
    .unwrap();
    assert_eq!(locals, vec![String::from("b"), String::from("a")]);
}

#[test]
fn test_parse_error_missing_semicolon() {
    let err = Parser::new(vec![Token::Num(1), Token::Eof]).parse().unwrap_err();
    assert_eq!(err.pos, 1);
    assert_eq!(
        err.kind,
        minicc::parser::ParseErrorKind::UnexpectedToken(Token::Semicolon)
    );
}

#[test]
fn test_parse_error_expected_number() {
    let err = Parser::new(vec![Token::Semicolon, Token::Eof]).parse().unwrap_err();
    assert_eq!(err.pos, 0);
    assert_eq!(err.kind, minicc::parser::ParseErrorKind::ExpectedNumber);
}
