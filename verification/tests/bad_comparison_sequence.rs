use oxc_toolchain::ast::{AstKind, AstNode, AstNodes, BinaryExpression, BinaryOperator, Span};
use oxc_toolchain::rules::bad_comparison_sequence::{
    has_no_bad_comparison_in_parents, is_bad_comparison, BadComparisonSequence,
    BadComparisonSequenceDiagnostic,
};

// A reader for the conditions of the programs below: names, parentheses, `&&`,
// the equality operators and the relational operators, with the precedence
// that the language gives them.

#[derive(Debug, Clone, Copy, PartialEq)]
enum Token {
    Name,
    Open,
    Close,
    And,
    Operator(BinaryOperator),
}

#[derive(Debug)]
enum Expr {
    Name,
    Parenthesized(Box<Expr>),
    Logical(Box<Expr>, Box<Expr>),
    Binary { span: Span, operator: BinaryOperator, left: Box<Expr>, right: Box<Expr> },
}

struct Reader {
    tokens: Vec<(Token, Span)>,
    at: usize,
}

fn tokens(source: &str, from: usize, to: usize) -> Vec<(Token, Span)> {
    let bytes = source.as_bytes();
    let mut found = Vec::new();
    let mut i = from;
    while i < to {
        let rest = &source[i..to];
        let (token, len) = if bytes[i] == b' ' {
            i += 1;
            continue;
        } else if rest.starts_with("===") {
            (Token::Operator(BinaryOperator::StrictEquality), 3)
        } else if rest.starts_with("!==") {
            (Token::Operator(BinaryOperator::StrictInequality), 3)
        } else if rest.starts_with("==") {
            (Token::Operator(BinaryOperator::Equality), 2)
        } else if rest.starts_with("!=") {
            (Token::Operator(BinaryOperator::Inequality), 2)
        } else if rest.starts_with("<=") {
            (Token::Operator(BinaryOperator::LessEqualThan), 2)
        } else if rest.starts_with(">=") {
            (Token::Operator(BinaryOperator::GreaterEqualThan), 2)
        } else if rest.starts_with("&&") {
            (Token::And, 2)
        } else if rest.starts_with('<') {
            (Token::Operator(BinaryOperator::LessThan), 1)
        } else if rest.starts_with('>') {
            (Token::Operator(BinaryOperator::GreaterThan), 1)
        } else if rest.starts_with('(') {
            (Token::Open, 1)
        } else if rest.starts_with(')') {
            (Token::Close, 1)
        } else {
            let len = rest.bytes().take_while(|b| b.is_ascii_alphanumeric()).count();
            assert!(len > 0, "unexpected character in {source}");
            (Token::Name, len)
        };
        found.push((token, Span { start: i as u32, end: (i + len) as u32 }));
        i += len;
    }
    found
}

fn start_of(expr: &Expr, fallback: u32) -> u32 {
    match expr {
        Expr::Binary { span, .. } => span.start,
        _ => fallback,
    }
}

fn primary(reader: &mut Reader) -> (Expr, Span) {
    let (token, span) = reader.tokens[reader.at];
    reader.at += 1;
    match token {
        Token::Name => (Expr::Name, span),
        Token::Open => {
            let (inner, _) = logical(reader);
            let (close, close_span) = reader.tokens[reader.at];
            assert_eq!(close, Token::Close);
            reader.at += 1;
            (Expr::Parenthesized(Box::new(inner)), Span { start: span.start, end: close_span.end })
        }
        other => panic!("unexpected token {other:?}"),
    }
}

fn binary(reader: &mut Reader, relational: bool) -> (Expr, Span) {
    let (mut left, mut left_span) =
        if relational { primary(reader) } else { binary(reader, true) };
    while reader.at < reader.tokens.len() {
        let operator = match reader.tokens[reader.at].0 {
            Token::Operator(operator) if operator.is_compare() == relational => operator,
            _ => break,
        };
        reader.at += 1;
        let (right, right_span) = if relational { primary(reader) } else { binary(reader, true) };
        let span = Span { start: start_of(&left, left_span.start), end: right_span.end };
        left = Expr::Binary { span, operator, left: Box::new(left), right: Box::new(right) };
        left_span = span;
    }
    (left, left_span)
}

fn logical(reader: &mut Reader) -> (Expr, Span) {
    let (mut left, mut left_span) = binary(reader, false);
    while reader.at < reader.tokens.len() && reader.tokens[reader.at].0 == Token::And {
        reader.at += 1;
        let (right, right_span) = binary(reader, false);
        left = Expr::Logical(Box::new(left), Box::new(right));
        left_span = Span { start: left_span.start, end: right_span.end };
    }
    (left, left_span)
}

fn add(nodes: &mut Vec<AstNode>, kind: AstKind, parent: usize) -> usize {
    nodes.push(AstNode { kind, parent: Some(parent) });
    nodes.len() - 1
}

fn add_expr(nodes: &mut Vec<AstNode>, expr: &Expr, parent: usize) {
    match expr {
        Expr::Name => {
            add(nodes, AstKind::Other, parent);
        }
        Expr::Parenthesized(inner) => {
            let place = add(nodes, AstKind::ParenthesizedExpression, parent);
            add_expr(nodes, inner, place);
        }
        Expr::Logical(left, right) => {
            let place = add(nodes, AstKind::Other, parent);
            add_expr(nodes, left, place);
            add_expr(nodes, right, place);
        }
        Expr::Binary { span, operator, left, right } => {
            let left_operator = match **left {
                Expr::Binary { operator, .. } => Some(operator),
                _ => None,
            };
            let kind = AstKind::BinaryExpression(BinaryExpression {
                span: *span,
                operator: *operator,
                left: left_operator,
            });
            let place = add(nodes, kind, parent);
            add_expr(nodes, left, place);
            add_expr(nodes, right, place);
        }
    }
}

/// The tree of `if (condition) { console.log('foo') }`.
fn tree(source: &str) -> AstNodes {
    assert!(source.starts_with("if ("), "{source}");
    let close = source.find(") {").expect("the end of the condition");
    let mut reader = Reader { tokens: tokens(source, 4, close), at: 0 };
    let (condition, _) = logical(&mut reader);
    assert_eq!(reader.at, reader.tokens.len(), "{source}");
    let mut nodes = vec![AstNode { kind: AstKind::Root, parent: None }];
    let program = add(&mut nodes, AstKind::Other, 0);
    let if_statement = add(&mut nodes, AstKind::Statement, program);
    add_expr(&mut nodes, &condition, if_statement);
    let block = add(&mut nodes, AstKind::Statement, if_statement);
    let statement = add(&mut nodes, AstKind::Statement, block);
    let call = add(&mut nodes, AstKind::Other, statement);
    add(&mut nodes, AstKind::Other, call);
    add(&mut nodes, AstKind::Other, call);
    AstNodes::new(nodes).expect("a tree")
}

fn diagnostics(source: &str) -> Vec<BadComparisonSequenceDiagnostic> {
    let nodes = tree(source);
    let rule = BadComparisonSequence::default();
    (0..nodes.len()).filter_map(|node| rule.run(node, &nodes)).collect()
}

fn reported_text(source: &str) -> Vec<&str> {
    diagnostics(source)
        .iter()
        .map(|diagnostic| &source[diagnostic.0.start as usize..diagnostic.0.end as usize])
        .collect()
}

#[test]
fn bad_comparison_sequence_test() {
    let pass = vec![
        "if (a == b > c) { console.log('foo') }",
        "if (a == b < c) { console.log('foo') }",
        "if (a == b >= c) { console.log('foo') }",
        "if (a == b <= c) { console.log('foo') }",
        "if (a === b > c) { console.log('foo') }",
        "if (a === b < c) { console.log('foo') }",
        "if (a === b >= c) { console.log('foo') }",
        "if (a === b <= c) { console.log('foo') }",
        "if (a != b > c) { console.log('foo') }",
        "if (a != b < c) { console.log('foo') }",
        "if (a != b >= c) { console.log('foo') }",
        "if (a != b <= c) { console.log('foo') }",
        "if (a !== b > c) { console.log('foo') }",
        "if (a !== b < c) { console.log('foo') }",
        "if (a !== b >= c) { console.log('foo') }",
        "if (a !== b <= c) { console.log('foo') }",
        "if (a > b == c) { console.log('foo') }",
        "if (a > b === c) { console.log('foo') }",
        "if (a > b != c) { console.log('foo') }",
        "if (a > b !== c) { console.log('foo') }",
        "if (a < b == c) { console.log('foo') }",
        "if (a < b === c) { console.log('foo') }",
        "if (a < b != c) { console.log('foo') }",
        "if (a < b !== c) { console.log('foo') }",
        "if (a >= b == c) { console.log('foo') }",
        "if (a >= b === c) { console.log('foo') }",
        "if (a >= b != c) { console.log('foo') }",
        "if (a >= b !== c) { console.log('foo') }",
        "if (a <= b == c) { console.log('foo') }",
        "if (a <= b === c) { console.log('foo') }",
        "if (a <= b != c) { console.log('foo') }",
        "if (a <= b !== c) { console.log('foo') }",
        "if ((a == b) && (b == c)) { console.log('foo') }",
        "if ((a > b) && (b > c)) { console.log('foo') }",
    ];

    let fail = vec![
        "if (a == b == c) { console.log('foo') }",
        "if (a == b == c == d) { console.log('foo') }",
        "if ((a == b == c) == d) { console.log('foo') }",
        "if ((a == b == c) == d == e == f) { console.log('foo') }",
        "if (a == b === c) { console.log('foo') }",
        "if (a == b != c) { console.log('foo') }",
        "if (a == b !== c) { console.log('foo') }",
        "if (a === b == c) { console.log('foo') }",
        "if (a === b === c) { console.log('foo') }",
        "if (a === b != c) { console.log('foo') }",
        "if (a === b !== c) { console.log('foo') }",
        "if (a != b == c) { console.log('foo') }",
        "if (a != b === c) { console.log('foo') }",
        "if (a != b != c) { console.log('foo') }",
        "if (a != b !== c) { console.log('foo') }",
        "if (a !== b == c) { console.log('foo') }",
        "if (a !== b === c) { console.log('foo') }",
        "if (a !== b != c) { console.log('foo') }",
        "if (a !== b !== c) { console.log('foo') }",
        "if (a > b > c) { console.log('foo') }",
        "if (a > b < c) { console.log('foo') }",
        "if (a > b >= c) { console.log('foo') }",
        "if (a > b <= c) { console.log('foo') }",
        "if (a < b > c) { console.log('foo') }",
        "if (a < b < c) { console.log('foo') }",
        "if (a < b >= c) { console.log('foo') }",
        "if (a < b <= c) { console.log('foo') }",
        "if (a >= b > c) { console.log('foo') }",
        "if (a >= b < c) { console.log('foo') }",
        "if (a >= b >= c) { console.log('foo') }",
        "if (a >= b <= c) { console.log('foo') }",
        "if (a <= b > c) { console.log('foo') }",
        "if (a <= b < c) { console.log('foo') }",
        "if (a <= b >= c) { console.log('foo') }",
        "if (a <= b <= c) { console.log('foo') }",
    ];

    for source in pass {
        assert_eq!(diagnostics(source), vec![], "{source}");
    }
    for source in fail {
        assert!(!diagnostics(source).is_empty(), "{source}");
    }
}

#[test]
fn a_chain_is_reported_once_at_its_outermost_comparison() {
    assert_eq!(reported_text("if (a == b == c) { console.log('foo') }"), vec!["a == b == c"]);
    assert_eq!(
        reported_text("if (a == b == c == d) { console.log('foo') }"),
        vec!["a == b == c == d"]
    );
    assert_eq!(reported_text("if (a < b >= c) { console.log('foo') }"), vec!["a < b >= c"]);
}

#[test]
fn parentheses_end_a_chain() {
    assert_eq!(
        reported_text("if ((a == b == c) == d) { console.log('foo') }"),
        vec!["a == b == c"]
    );
    assert_eq!(
        reported_text("if ((a == b == c) == d == e == f) { console.log('foo') }"),
        vec!["(a == b == c) == d == e == f", "a == b == c"]
    );
}

#[test]
fn comparisons_of_different_families_are_no_sequence() {
    let binary = |operator, left| BinaryExpression { span: Span { start: 0, end: 1 }, operator, left };
    let equality = [
        BinaryOperator::Equality,
        BinaryOperator::Inequality,
        BinaryOperator::StrictEquality,
        BinaryOperator::StrictInequality,
    ];
    let order = [
        BinaryOperator::LessThan,
        BinaryOperator::LessEqualThan,
        BinaryOperator::GreaterThan,
        BinaryOperator::GreaterEqualThan,
    ];
    for outer in equality {
        assert!(outer.is_equality() && !outer.is_compare());
        assert!(!is_bad_comparison(&binary(outer, None)));
        assert!(!is_bad_comparison(&binary(outer, Some(BinaryOperator::Addition))));
        for inner in equality {
            assert!(is_bad_comparison(&binary(outer, Some(inner))));
        }
        for inner in order {
            assert!(!is_bad_comparison(&binary(outer, Some(inner))));
        }
    }
    for outer in order {
        assert!(outer.is_compare() && !outer.is_equality());
        assert!(!is_bad_comparison(&binary(outer, None)));
        for inner in order {
            assert!(is_bad_comparison(&binary(outer, Some(inner))));
        }
        for inner in equality {
            assert!(!is_bad_comparison(&binary(outer, Some(inner))));
        }
    }
    assert!(!BinaryOperator::Addition.is_equality() && !BinaryOperator::Addition.is_compare());
    assert!(!is_bad_comparison(&binary(BinaryOperator::Addition, Some(BinaryOperator::Addition))));
}

#[test]
fn the_way_up_ends_at_a_boundary() {
    let bad = AstKind::BinaryExpression(BinaryExpression {
        span: Span { start: 0, end: 11 },
        operator: BinaryOperator::Equality,
        left: Some(BinaryOperator::Equality),
    });
    let plain = AstKind::BinaryExpression(BinaryExpression {
        span: Span { start: 0, end: 5 },
        operator: BinaryOperator::Addition,
        left: None,
    });
    let node = |kind, parent| AstNode { kind, parent: Some(parent) };
    for (boundary, expected) in [
        (AstKind::Statement, true),
        (AstKind::Declaration, true),
        (AstKind::ParenthesizedExpression, true),
        (AstKind::Other, false),
        (plain, false),
    ] {
        // root, bad comparison, the kind under test, a node below it
        let nodes = AstNodes::new(vec![
            AstNode { kind: AstKind::Root, parent: None },
            node(bad, 0),
            node(boundary, 1),
            node(bad, 2),
        ])
        .expect("a tree");
        assert_eq!(has_no_bad_comparison_in_parents(3, &nodes), expected, "{boundary:?}");
        assert!(has_no_bad_comparison_in_parents(1, &nodes));
        assert!(has_no_bad_comparison_in_parents(0, &nodes));
        assert!(has_no_bad_comparison_in_parents(17, &nodes));
        assert_eq!(BadComparisonSequence.run(17, &nodes), None);
        assert_eq!(BadComparisonSequence.run(0, &nodes), None);
        assert_eq!(
            BadComparisonSequence.run(1, &nodes),
            Some(BadComparisonSequenceDiagnostic(Span { start: 0, end: 11 }))
        );
        assert_eq!(BadComparisonSequence.run(3, &nodes).is_some(), expected);
    }
}

#[test]
fn a_table_that_is_no_tree_is_refused() {
    let root = AstNode { kind: AstKind::Root, parent: None };
    let below = |parent| AstNode { kind: AstKind::Other, parent: Some(parent) };
    assert!(AstNodes::new(vec![]).is_none());
    assert!(AstNodes::new(vec![below(0)]).is_none());
    assert!(AstNodes::new(vec![AstNode { kind: AstKind::Root, parent: Some(0) }]).is_none());
    assert!(AstNodes::new(vec![root, root]).is_none());
    assert!(AstNodes::new(vec![root, below(1)]).is_none());
    assert!(AstNodes::new(vec![root, below(0), below(3), below(0)]).is_none());
    let tree = AstNodes::new(vec![root, below(0), below(1), below(0)]).expect("a tree");
    assert_eq!(tree.len(), 4);
    assert_eq!(tree.kind(2), AstKind::Other);
    assert_eq!(tree.parent_node(0), None);
    assert_eq!(tree.parent_node(2), Some(1));
    assert_eq!(tree.parent_node(3), Some(0));
    assert_eq!(tree.parent_node(4), None);
}
