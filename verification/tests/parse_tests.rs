use infix_parser::{Node, Parser};

fn toks(words: &[&str]) -> Vec<String> {
    words.iter().map(|w| w.to_string()).collect()
}

fn op(label: &str, left: Node, right: Node) -> Node {
    Node::Operator(label.to_string(), Box::new(left), Box::new(right))
}

fn grouped(inner: Node) -> Node {
    Node::Parentheses(Box::new(inner))
}

fn prim(label: &str) -> Node {
    Node::Primitive(label.to_string())
}

fn ph() -> Node {
    Node::Placeholder()
}

/// The number of `Operator` nodes in a tree.
fn count_operators(node: &Node) -> usize {
    match node {
        Node::Operator(_, left, right) => 1 + count_operators(left) + count_operators(right),
        Node::Parentheses(inner) => count_operators(inner),
        Node::Primitive(_) => 0,
        Node::Placeholder() => 0,
    }
}

/// The number of `Primitive` and `Placeholder` leaves in a tree.
fn count_leaves(node: &Node) -> usize {
    match node {
        Node::Operator(_, left, right) => count_leaves(left) + count_leaves(right),
        Node::Parentheses(inner) => count_leaves(inner),
        Node::Primitive(_) => 1,
        Node::Placeholder() => 1,
    }
}

#[test]
fn test_parse_1() {
    let parser = Parser::new(toks(&["+", "*"]));
    assert_eq!(
        parser.parse(&toks(&["1", "+", "2", "*", "3"])).unwrap(),
        op("+", prim("1"), op("*", prim("2"), prim("3")))
    );
}

#[test]
fn test_parse_2() {
    let parser = Parser::new(toks(&["+", "-", "*"]));
    assert_eq!(
        parser.parse(&toks(&["-", "1", "*", "2", "+", "3"])).unwrap(),
        op("+", op("-", ph(), op("*", prim("1"), prim("2"))), prim("3"))
    );
}

#[test]
fn test_parse_3() {
    let parser = Parser::new(toks(&["+", "?", "*"]));
    assert_eq!(
        parser.parse(&toks(&["1", "+", "2", "*", "3", "?"])).unwrap(),
        op("+", prim("1"), op("?", op("*", prim("2"), prim("3")), ph()))
    );
}

#[test]
fn test_parse_4() {
    let parser = Parser::new(toks(&["+", "*"]));
    assert_eq!(
        parser.parse(&toks(&["(", "1", "+", "2", ")", "*", "3"])).unwrap(),
        op("*", grouped(op("+", prim("1"), prim("2"))), prim("3"))
    );
}

#[test]
fn test_parse_5() {
    let parser = Parser::new(toks(&["+", "-", "*"]));
    assert_eq!(
        parser.parse(&toks(&["(", "-", "1", ")", "*", "2", "+", "3"])).unwrap(),
        op(
            "+",
            op("*", grouped(op("-", ph(), prim("1"))), prim("2")),
            prim("3")
        )
    );
}

#[test]
fn test_parse_6() {
    let parser = Parser::new(toks(&["+", "?", "*"]));
    assert_eq!(
        parser.parse(&toks(&["1", "+", "2", "*", "(", "3", "?", ")"])).unwrap(),
        op(
            "+",
            prim("1"),
            op("*", prim("2"), grouped(op("?", prim("3"), ph())))
        )
    );
}

#[test]
fn test_parse_7() {
    let parser = Parser::new(toks(&["*"]));
    assert_eq!(parser.parse(&toks(&["p", "q", "*", "r", "s"])), None);
}

#[test]
fn test_shape_invariant() {
    let parser = Parser::new(toks(&["+", "-", "*"]));
    let tree = parser
        .parse(&toks(&["(", "-", "1", ")", "*", "2", "+", "3"]))
        .unwrap();
    // Three operator tokens were consumed: `-`, `*`, `+`.
    assert_eq!(count_operators(&tree), 3);
    assert_eq!(count_leaves(&tree), count_operators(&tree) + 1);
}

#[test]
fn test_shape_invariant_with_groups() {
    let parser = Parser::new(toks(&["+", "?", "*"]));
    let tree = parser
        .parse(&toks(&["1", "+", "2", "*", "(", "3", "?", ")"]))
        .unwrap();
    // `(` and `)` do not count as operator tokens.
    assert_eq!(count_operators(&tree), 3);
    assert_eq!(count_leaves(&tree), 4);
}

#[test]
fn test_deterministic() {
    let input = toks(&["-", "1", "*", "2", "+", "3"]);
    let first = Parser::new(toks(&["+", "-", "*"])).parse(&input);
    let second = Parser::new(toks(&["+", "-", "*"])).parse(&input);
    assert_eq!(first, second);
    assert!(first.is_some());
}

#[test]
fn test_empty_input_is_placeholder() {
    // The gap between start-of-input and end-of-input demands an operand
    // on both sides, so one placeholder is synthesized and is the result.
    let parser = Parser::new(toks(&["+", "*"]));
    assert_eq!(parser.parse(&toks(&[])).unwrap(), ph());
}

#[test]
fn test_unmatched_open_fails() {
    let parser = Parser::new(toks(&["+"]));
    assert_eq!(parser.parse(&toks(&["(", "1"])), None);
}

#[test]
fn test_unmatched_close_fails() {
    let parser = Parser::new(toks(&["+"]));
    assert_eq!(parser.parse(&toks(&["1", ")"])), None);
}

#[test]
fn test_empty_group_is_placeholder() {
    let parser = Parser::new(toks(&["+"]));
    assert_eq!(parser.parse(&toks(&["(", ")"])).unwrap(), grouped(ph()));
}

#[test]
fn test_lone_operator_gets_both_placeholders() {
    let parser = Parser::new(toks(&["+"]));
    assert_eq!(parser.parse(&toks(&["+"])).unwrap(), op("+", ph(), ph()));
}

#[test]
fn test_duplicate_operator_last_wins() {
    // `+` appears twice; its later (tighter) rank is the one that counts.
    let parser = Parser::new(toks(&["+", "*", "+"]));
    assert_eq!(
        parser.parse(&toks(&["1", "+", "2", "*", "3"])).unwrap(),
        op("*", op("+", prim("1"), prim("2")), prim("3"))
    );
}

#[test]
fn test_empty_priority_order() {
    // Every non-paren token is an operand; a single operand parses,
    // two operands in a row do not reduce to one node.
    let parser = Parser::new(toks(&[]));
    assert_eq!(parser.parse(&toks(&["x"])).unwrap(), prim("x"));
    assert_eq!(parser.parse(&toks(&["x", "y"])), None);
}

#[test]
fn test_left_associativity() {
    let parser = Parser::new(toks(&["-"]));
    assert_eq!(
        parser.parse(&toks(&["1", "-", "2", "-", "3"])).unwrap(),
        op("-", op("-", prim("1"), prim("2")), prim("3"))
    );
}
