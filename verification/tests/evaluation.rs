use calculator::common::evaluate_expression;
use calculator::constants::Mode;
use calculator::error::Error;
use calculator::infix::evaluate_infix_expression;
use calculator::operation::{Operation, Request};
use calculator::polish::evaluate_polish_expression;
use calculator::progress::Progress;

/// Answers a request with the arithmetic of the machine.
fn compute(request: &Request) -> u64 {
    match request {
        Request::Literal(literal) => {
            let text: String = literal.text().iter().collect();
            text.parse::<f64>().expect("the literal is a number").to_bits()
        }
        Request::Binary { operation, left, right } => {
            let left = f64::from_bits(*left);
            let right = f64::from_bits(*right);
            let value = match operation {
                Operation::Add => left + right,
                Operation::Subtract => left - right,
                Operation::Multiply => left * right,
                Operation::Divide => left / right,
            };
            value.to_bits()
        }
    }
}

/// Runs an evaluation to its end.
fn run(progress: Progress) -> Result<f64, Error> {
    let mut progress = progress;
    loop {
        match progress {
            Progress::Finished(result) => return result.map(f64::from_bits),
            Progress::Suspended(pending) => {
                let answer = compute(pending.request());
                progress = pending.resume(answer);
            }
        }
    }
}

fn evaluate_infix(expr: &str) -> Result<f64, Error> {
    run(evaluate_infix_expression(expr))
}

fn evaluate_prefix(expr: &str) -> Result<f64, Error> {
    run(evaluate_polish_expression(expr))
}

#[test]
fn infix_precedence() {
    assert_eq!(evaluate_infix("2 + 3 * 4"), Ok(14.0));
    assert_eq!(evaluate_infix("(2 + 3) * 4"), Ok(20.0));
    assert_eq!(evaluate_infix("2 * 3 + 4"), Ok(10.0));
    assert_eq!(evaluate_infix("10 - 4 / 2"), Ok(8.0));
}

#[test]
fn infix_left_associativity() {
    assert_eq!(evaluate_infix("8 - 3 - 2"), Ok(3.0));
    assert_eq!(evaluate_infix("8 / 4 / 2"), Ok(1.0));
    assert_eq!(evaluate_infix("2 - 3 + 4"), Ok(3.0));
}

#[test]
fn infix_unary_minus() {
    assert_eq!(evaluate_infix("-5 + 3"), Ok(-2.0));
    assert_eq!(evaluate_infix("3 * -2"), Ok(-6.0));
    assert_eq!(evaluate_infix("(-2) * 3"), Ok(-6.0));
    assert_eq!(evaluate_infix("4 - -1"), Ok(5.0));
    assert_eq!(evaluate_infix("4--1"), Ok(5.0));
    assert_eq!(evaluate_infix("4-1"), Ok(3.0));
}

#[test]
fn infix_numbers_with_points() {
    assert_eq!(evaluate_infix("1.5 + 2.25"), Ok(3.75));
    assert_eq!(evaluate_infix(".5 * 4"), Ok(2.0));
    assert_eq!(evaluate_infix("5. / 2"), Ok(2.5));
    assert_eq!(evaluate_infix("42"), Ok(42.0));
    assert_eq!(evaluate_infix("-0.125"), Ok(-0.125));
}

#[test]
fn infix_blanks_are_skipped() {
    assert_eq!(evaluate_infix("  2+3  "), Ok(5.0));
    assert_eq!(evaluate_infix("2\t+\t3"), Ok(5.0));
    assert_eq!(evaluate_infix("( 1 + 2 ) * ( 3 + 4 )"), Ok(21.0));
}

#[test]
fn infix_nested_parentheses() {
    assert_eq!(evaluate_infix("((1 + 2) * (3 - (4 / 2)))"), Ok(3.0));
    assert_eq!(evaluate_infix("2 * (3 + 4) * 5"), Ok(70.0));
}

#[test]
fn infix_malformed_input() {
    assert_eq!(evaluate_infix("2 + "), Err(Error::MalformedExpression));
    assert_eq!(evaluate_infix(""), Err(Error::MalformedExpression));
    assert_eq!(evaluate_infix("2 3"), Err(Error::MalformedExpression));
    assert_eq!(evaluate_infix("* 2"), Err(Error::MalformedExpression));
    assert_eq!(evaluate_infix("()"), Err(Error::MalformedExpression));
}

#[test]
fn infix_unexpected_character() {
    assert_eq!(evaluate_infix("2 $ 3"), Err(Error::UnexpectedCharacter('$')));
    assert_eq!(evaluate_infix("2 + x"), Err(Error::UnexpectedCharacter('x')));
    assert_eq!(evaluate_infix("1e5"), Err(Error::UnexpectedCharacter('e')));
    assert_eq!(evaluate_infix("2\n+ 3"), Err(Error::UnexpectedCharacter('\n')));
}

#[test]
fn infix_invalid_number() {
    assert_eq!(evaluate_infix("1.2.3"), Err(Error::InvalidNumber));
    assert_eq!(evaluate_infix(". + 1"), Err(Error::InvalidNumber));
    assert_eq!(evaluate_infix("- 3"), Err(Error::InvalidNumber));
    assert_eq!(evaluate_infix("--3"), Err(Error::InvalidNumber));
    assert_eq!(evaluate_infix("2 + -"), Err(Error::InvalidNumber));
}

#[test]
fn infix_first_error_wins() {
    assert_eq!(evaluate_infix("1.2.3 $"), Err(Error::InvalidNumber));
    assert_eq!(evaluate_infix("$ 1.2.3"), Err(Error::UnexpectedCharacter('$')));
    assert_eq!(evaluate_infix("1 / 0 +"), Err(Error::DivisionByZero));
    assert_eq!(evaluate_infix("* 1 / 0"), Err(Error::MalformedExpression));
}

#[test]
fn infix_division_by_zero() {
    assert_eq!(evaluate_infix("1 / 0"), Err(Error::DivisionByZero));
    assert_eq!(evaluate_infix("1 / -0"), Err(Error::DivisionByZero));
    assert_eq!(evaluate_infix("1 / 0.0"), Err(Error::DivisionByZero));
    assert_eq!(evaluate_infix("1 / (2 - 2)"), Err(Error::DivisionByZero));
    assert_eq!(evaluate_infix("0 / 5"), Ok(0.0));
}

/// Parentheses that do not pair up are not reported by the conversion to
/// postfix order. A right parenthesis without a left one releases every
/// waiting operator; a left parenthesis that is never closed reaches the
/// postfix evaluator, which reports it as an invalid token.
#[test]
fn infix_unmatched_parentheses() {
    assert_eq!(evaluate_infix("2 + 3)"), Ok(5.0));
    assert_eq!(evaluate_infix("2 + 3) * 4"), Ok(20.0));
    assert_eq!(evaluate_infix("(2 + 3"), Err(Error::InvalidToken));
    assert_eq!(evaluate_infix("("), Err(Error::InvalidToken));
    assert_eq!(evaluate_infix(")"), Err(Error::MalformedExpression));
}

#[test]
fn infix_overflow_passes_through() {
    let huge = "9".repeat(400);
    assert_eq!(evaluate_infix(&huge), Ok(f64::INFINITY));
    let product = evaluate_infix(&format!("{} * 0", huge)).unwrap();
    assert!(product.is_nan());
}

#[test]
fn prefix_notation() {
    assert_eq!(evaluate_prefix("+ 2 3"), Ok(5.0));
    assert_eq!(evaluate_prefix("* + 1 2 3"), Ok(9.0));
    assert_eq!(evaluate_prefix("- 8 3"), Ok(5.0));
    assert_eq!(evaluate_prefix("/ 8 4"), Ok(2.0));
    assert_eq!(evaluate_prefix("- / 8 4 1"), Ok(1.0));
    assert_eq!(evaluate_prefix("7"), Ok(7.0));
}

#[test]
fn prefix_numbers_of_the_full_grammar() {
    assert_eq!(evaluate_prefix("+ 1e2 -2.5E-1"), Ok(99.75));
    assert_eq!(evaluate_prefix("* +3 .5"), Ok(1.5));
    assert_eq!(evaluate_prefix("- inf 1"), Ok(f64::INFINITY));
    assert_eq!(evaluate_prefix("+ -Infinity 1"), Ok(f64::NEG_INFINITY));
    assert!(evaluate_prefix("+ NaN 1").unwrap().is_nan());
}

#[test]
fn prefix_words_are_split_on_any_whitespace() {
    assert_eq!(evaluate_prefix("+\t2\n3"), Ok(5.0));
    assert_eq!(evaluate_prefix("  +   2   3  "), Ok(5.0));
    assert_eq!(evaluate_prefix("+\u{00A0}2\u{3000}3"), Ok(5.0));
}

#[test]
fn prefix_malformed_input() {
    assert_eq!(evaluate_prefix("+ 1"), Err(Error::MalformedExpression));
    assert_eq!(evaluate_prefix("+"), Err(Error::MalformedExpression));
    assert_eq!(evaluate_prefix(""), Err(Error::MalformedExpression));
    assert_eq!(evaluate_prefix("   "), Err(Error::MalformedExpression));
    assert_eq!(evaluate_prefix("1 2"), Err(Error::MalformedExpression));
    assert_eq!(evaluate_prefix("+ 1 2 3"), Err(Error::MalformedExpression));
}

#[test]
fn prefix_invalid_symbol() {
    assert_eq!(evaluate_prefix("+ 1 x"), Err(Error::InvalidSymbol));
    assert_eq!(evaluate_prefix("% 1 2"), Err(Error::InvalidSymbol));
    assert_eq!(evaluate_prefix("( + 1 2 )"), Err(Error::InvalidSymbol));
    assert_eq!(evaluate_prefix("+- 1 2"), Err(Error::InvalidSymbol));
    assert_eq!(evaluate_prefix("1.2.3"), Err(Error::InvalidSymbol));
}

#[test]
fn prefix_first_error_from_the_right_wins() {
    assert_eq!(evaluate_prefix("x + 1"), Err(Error::MalformedExpression));
    assert_eq!(evaluate_prefix("x / 1 0"), Err(Error::DivisionByZero));
    assert_eq!(evaluate_prefix("+ x 1"), Err(Error::InvalidSymbol));
}

#[test]
fn prefix_division_by_zero() {
    assert_eq!(evaluate_prefix("/ 1 0"), Err(Error::DivisionByZero));
    assert_eq!(evaluate_prefix("/ 1 -0.0"), Err(Error::DivisionByZero));
    assert_eq!(evaluate_prefix("/ 0 1"), Ok(0.0));
}

#[test]
fn both_notations_through_one_entry_point() {
    assert_eq!(run(evaluate_expression("2 + 3 * 4", &Mode::Common)), Ok(14.0));
    assert_eq!(run(evaluate_expression("+ 2 * 3 4", &Mode::Polish)), Ok(14.0));
    assert_eq!(run(evaluate_expression("* + 1 2 3", &Mode::Polish)), Ok(9.0));
    assert_eq!(
        run(evaluate_expression("* + 1 2 3", &Mode::Common)),
        Err(Error::MalformedExpression)
    );
    assert_eq!(run(evaluate_expression("2 + 3", &Mode::Polish)), Err(Error::MalformedExpression));
}

#[test]
fn evaluating_twice_gives_the_same_result() {
    for expr in ["2 + 3 * 4", "1 / 0", "2 $ 3", "(1 + 2", "0.1 + 0.2"] {
        assert_eq!(evaluate_infix(expr), evaluate_infix(expr));
    }
    for expr in ["+ 2 3", "/ 1 0", "+ 1", "* + 0.1 0.2 3"] {
        assert_eq!(evaluate_prefix(expr), evaluate_prefix(expr));
    }
}

/// A syntax tree, and its two renderings.
enum Tree {
    Leaf(&'static str),
    Node(char, Box<Tree>, Box<Tree>),
}

fn node(op: char, left: Tree, right: Tree) -> Tree {
    Tree::Node(op, Box::new(left), Box::new(right))
}

fn infix_of(tree: &Tree) -> String {
    match tree {
        Tree::Leaf(text) => text.to_string(),
        Tree::Node(op, left, right) => format!("({} {} {})", infix_of(left), op, infix_of(right)),
    }
}

fn prefix_of(tree: &Tree) -> String {
    match tree {
        Tree::Leaf(text) => text.to_string(),
        Tree::Node(op, left, right) => format!("{} {} {}", op, prefix_of(left), prefix_of(right)),
    }
}

#[test]
fn both_renderings_of_a_tree_agree() {
    let trees = vec![
        Tree::Leaf("3.5"),
        node('+', Tree::Leaf("1"), Tree::Leaf("2")),
        node('-', Tree::Leaf("-1"), Tree::Leaf("-2.5")),
        node('*', node('+', Tree::Leaf("1"), Tree::Leaf("2")), Tree::Leaf("3")),
        node('/', Tree::Leaf("1"), node('-', Tree::Leaf("2"), Tree::Leaf("2"))),
        node(
            '-',
            node('/', Tree::Leaf("7"), Tree::Leaf("0.5")),
            node('*', Tree::Leaf(".25"), node('+', Tree::Leaf("8."), Tree::Leaf("-3"))),
        ),
    ];
    for tree in &trees {
        assert_eq!(evaluate_infix(&infix_of(tree)), evaluate_prefix(&prefix_of(tree)));
    }
    assert_eq!(evaluate_infix(&infix_of(&trees[3])), Ok(9.0));
    assert_eq!(evaluate_infix(&infix_of(&trees[4])), Err(Error::DivisionByZero));
    assert_eq!(evaluate_infix(&infix_of(&trees[5])), Ok(12.75));
}
