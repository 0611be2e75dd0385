use calculator::common::{check_exit_command, choose_mode, mode_for_command, mode_to_string};
use calculator::constants::{Mode, EXIT_COMMAND, MEMORY_FLAG, MODE_COMMON, MODE_POLISH};
use calculator::error::Error;
use calculator::literal::{is_number_text, is_zero_bits, Literal};
use calculator::operation::{apply_operation, Operation, Request};
use calculator::polish::{is_whitespace_char, split_words};
use calculator::progress::Progress;
use calculator::rpn::evaluate_rpn;
use calculator::shunting_yard::{precedence, shunting_yard};
use calculator::token::Token;
use calculator::tokenizer::{flush_number_buffer, tokenize};

fn chars(text: &str) -> Vec<char> {
    text.chars().collect()
}

/// A compact rendering of tokens: numbers by their text, the rest by symbol.
fn render(tokens: &[Token]) -> Vec<String> {
    tokens
        .iter()
        .map(|token| match token {
            Token::Number(literal) => literal.text().iter().collect(),
            Token::Operator(symbol) => symbol.to_string(),
            Token::LeftParen => "(".to_string(),
            Token::RightParen => ")".to_string(),
        })
        .collect()
}

fn tokens_of(expr: &str) -> Vec<String> {
    render(&tokenize(expr).expect("the expression has tokens"))
}

fn postfix_of(expr: &str) -> Vec<String> {
    let tokens = tokenize(expr).expect("the expression has tokens");
    render(&shunting_yard(tokens).expect("the conversion does not fail"))
}

fn number(text: &str) -> Token {
    Token::Number(Literal::new(chars(text)).expect("the text is a number"))
}

fn compute(request: &Request) -> u64 {
    match request {
        Request::Literal(literal) => {
            let text: String = literal.text().iter().collect();
            text.parse::<f64>().expect("the literal is a number").to_bits()
        }
        Request::Binary { operation, left, right } => {
            let left = f64::from_bits(*left);
            let right = f64::from_bits(*right);
            let value = match operation {
                Operation::Add => left + right,
                Operation::Subtract => left - right,
                Operation::Multiply => left * right,
                Operation::Divide => left / right,
            };
            value.to_bits()
        }
    }
}

fn run(progress: Progress) -> Result<f64, Error> {
    let mut progress = progress;
    loop {
        match progress {
            Progress::Finished(result) => return result.map(f64::from_bits),
            Progress::Suspended(pending) => {
                let answer = compute(pending.request());
                progress = pending.resume(answer);
            }
        }
    }
}

fn apply(operator: char, left: f64, right: f64) -> Result<f64, Error> {
    let request = apply_operation(left.to_bits(), right.to_bits(), operator)?;
    Ok(f64::from_bits(compute(&request)))
}

#[test]
fn apply_gives_the_exact_result() {
    let operands = [0.0, -0.0, 1.0, -1.5, 0.1, 0.2, 1e308, -1e308, 5e-324, 123456.789];
    for &left in &operands {
        for &right in &operands {
            assert_eq!(apply('+', left, right).unwrap().to_bits(), (left + right).to_bits());
            assert_eq!(apply('-', left, right).unwrap().to_bits(), (left - right).to_bits());
            assert_eq!(apply('*', left, right).unwrap().to_bits(), (left * right).to_bits());
            if right != 0.0 {
                assert_eq!(apply('/', left, right).unwrap().to_bits(), (left / right).to_bits());
            }
        }
    }
    assert_eq!(apply('+', 0.1, 0.2), Ok(0.30000000000000004));
    assert_eq!(apply('-', 8.0, 3.0), Ok(5.0));
    assert_eq!(apply('*', 1.5, 4.0), Ok(6.0));
    assert_eq!(apply('/', 1.0, 4.0), Ok(0.25));
}

#[test]
fn apply_requests_the_operands_in_order() {
    match apply_operation(7, 9, '-') {
        Ok(Request::Binary { operation, left, right }) => {
            assert_eq!(operation, Operation::Subtract);
            assert_eq!(left, 7);
            assert_eq!(right, 9);
        }
        other => panic!("unexpected {:?}", other),
    }
    assert!(matches!(
        apply_operation(1, 2, '+'),
        Ok(Request::Binary { operation: Operation::Add, left: 1, right: 2 })
    ));
    assert!(matches!(
        apply_operation(1, 2, '*'),
        Ok(Request::Binary { operation: Operation::Multiply, left: 1, right: 2 })
    ));
    assert!(matches!(
        apply_operation(1, 2, '/'),
        Ok(Request::Binary { operation: Operation::Divide, left: 1, right: 2 })
    ));
}

#[test]
fn apply_division_by_zero() {
    for left in [0.0, 1.0, -1.0, 1e308, 5e-324, -123.456] {
        assert_eq!(apply('/', left, 0.0), Err(Error::DivisionByZero));
        assert_eq!(apply('/', left, -0.0), Err(Error::DivisionByZero));
    }
    assert_eq!(apply('/', 1.0, 5e-324), Ok(f64::INFINITY));
    assert!(apply('/', 1.0, f64::NAN).unwrap().is_nan());
}

#[test]
fn apply_unknown_operator() {
    assert_eq!(apply('%', 1.0, 2.0), Err(Error::UnknownOperator));
    assert_eq!(apply('^', 1.0, 0.0), Err(Error::UnknownOperator));
    assert_eq!(apply(' ', 1.0, 2.0), Err(Error::UnknownOperator));
}

#[test]
fn a_literal_holds_a_number() {
    let literal = Literal::new(chars("-12.5")).expect("the text is a number");
    assert_eq!(*literal.text(), chars("-12.5"));
    assert_eq!(Literal::new(chars("1.2.3")).unwrap_err(), chars("1.2.3"));
    assert_eq!(Literal::new(chars("")).unwrap_err(), chars(""));
    assert_eq!(Literal::new(chars("+")).unwrap_err(), chars("+"));
    assert!(Literal::new(chars("1e-7")).is_ok());
    assert!(Literal::new(chars("NaN")).is_ok());
}

#[test]
fn zero_is_zero_of_either_sign() {
    assert!(is_zero_bits(0.0f64.to_bits()));
    assert!(is_zero_bits((-0.0f64).to_bits()));
    assert!(!is_zero_bits(5e-324f64.to_bits()));
    assert!(!is_zero_bits(f64::NAN.to_bits()));
    assert!(!is_zero_bits(1.0f64.to_bits()));
    assert!(!is_zero_bits(u64::MAX));
}

#[test]
fn number_grammar_matches_the_float_parser() {
    let texts = [
        "", "-", "+", ".", "-.", "+.", "0", "7", "007", "-7", "+7", "--7", "+-7", "7-", "1.", ".1",
        "1.5", "-1.5", "1.2.3", "1..2", "..", "1e5", "1E5", "1e+5", "1e-5", "1e", "1e+", "e5", ".e5",
        "1.e5", ".5e5", "1e5.", "1e5e5", "1e5x", "inf", "INF", "Inf", "-inf", "+inf", "infinity",
        "INFINITY", "-Infinity", "infinit", "infinityy", "nan", "NaN", "-nan", "+NAN", "nanx", "in",
        "0x10", "1_000", " 1", "1 ", "1f", "١٢", "1,5", "9999999999999999999999999999999999",
        "0.000000000000000000000000000000000000001", "1e400", "-1e-400", "ınf", "İNF", "ⅰnf",
        "infınity", "n\u{0061}\u{006E}", "\u{212A}", "1\u{0301}",
    ];
    for text in texts {
        assert_eq!(
            is_number_text(&chars(text)),
            text.parse::<f64>().is_ok(),
            "on {:?}",
            text
        );
    }
}

#[test]
fn number_grammar_matches_the_float_parser_on_short_texts() {
    let alphabet = ['-', '+', '.', '0', '9', 'e', 'E', 'n', 'a', 'i', 'f', ' '];
    let mut texts: Vec<String> = vec![String::new()];
    for _ in 0..4 {
        let mut longer = Vec::new();
        for text in &texts {
            for c in alphabet {
                let mut next = text.clone();
                next.push(c);
                longer.push(next);
            }
        }
        for text in &longer {
            assert_eq!(
                is_number_text(&chars(text)),
                text.parse::<f64>().is_ok(),
                "on {:?}",
                text
            );
        }
        texts = longer;
    }
}

#[test]
fn whitespace_matches_the_standard_library() {
    for code in 0..=0x10FFFFu32 {
        if let Some(c) = char::from_u32(code) {
            assert_eq!(is_whitespace_char(c), c.is_whitespace(), "on U+{:04X}", code);
        }
    }
}

#[test]
fn words_are_the_runs_without_whitespace() {
    let words = |text: &str| -> Vec<String> {
        split_words(text).iter().map(|word| word.iter().collect()).collect()
    };
    for text in ["", " ", "a", " a", "a ", "+ 1 2", "  *\t+ 1\n2   3 ", "a\u{2003}b\u{0085}c", "ab  cd"] {
        let expected: Vec<String> = text.split_whitespace().map(str::to_string).collect();
        assert_eq!(words(text), expected, "on {:?}", text);
    }
    assert_eq!(words("  * + 1 2   3 "), vec!["*", "+", "1", "2", "3"]);
}

#[test]
fn tokens_of_an_expression() {
    assert_eq!(tokens_of("2 + 3 * 4"), vec!["2", "+", "3", "*", "4"]);
    assert_eq!(tokens_of("(2+3)*4"), vec!["(", "2", "+", "3", ")", "*", "4"]);
    assert_eq!(tokens_of("12.5/.5"), vec!["12.5", "/", ".5"]);
    assert_eq!(tokens_of(""), Vec::<String>::new());
    assert_eq!(tokens_of("   "), Vec::<String>::new());
    assert_eq!(tokens_of("1 2"), vec!["1", "2"]);
}

#[test]
fn tokens_tell_a_sign_from_an_operator() {
    assert_eq!(tokens_of("-5 + 3"), vec!["-5", "+", "3"]);
    assert_eq!(tokens_of("3 * -2"), vec!["3", "*", "-2"]);
    assert_eq!(tokens_of("3 - 2"), vec!["3", "-", "2"]);
    assert_eq!(tokens_of("3 -2"), vec!["3", "-", "2"]);
    assert_eq!(tokens_of("3--2"), vec!["3", "-", "-2"]);
    assert_eq!(tokens_of("(-2)"), vec!["(", "-2", ")"]);
    assert_eq!(tokens_of("(1)-2"), vec!["(", "1", ")", "-", "2"]);
    assert_eq!(tokens_of("(1) -2"), vec!["(", "1", ")", "-", "2"]);
}

#[test]
fn tokenizer_errors() {
    assert_eq!(tokenize("2 $ 3").unwrap_err(), Error::UnexpectedCharacter('$'));
    assert_eq!(tokenize("a").unwrap_err(), Error::UnexpectedCharacter('a'));
    assert_eq!(tokenize("2 + é").unwrap_err(), Error::UnexpectedCharacter('é'));
    assert_eq!(tokenize("1.2.3").unwrap_err(), Error::InvalidNumber);
    assert_eq!(tokenize(".").unwrap_err(), Error::InvalidNumber);
    assert_eq!(tokenize("-").unwrap_err(), Error::InvalidNumber);
    assert_eq!(tokenize("- 1").unwrap_err(), Error::InvalidNumber);
    assert_eq!(tokenize("1 + -(2)").unwrap_err(), Error::InvalidNumber);
    assert_eq!(tokenize("-.").unwrap_err(), Error::InvalidNumber);
}

#[test]
fn flushing_the_number_buffer() {
    let mut tokens = Vec::new();
    let mut buffer = Vec::new();
    assert_eq!(flush_number_buffer(&mut buffer, &mut tokens), Ok(()));
    assert!(tokens.is_empty());

    buffer = chars("-12.5");
    assert_eq!(flush_number_buffer(&mut buffer, &mut tokens), Ok(()));
    assert!(buffer.is_empty());
    assert_eq!(render(&tokens), vec!["-12.5"]);

    buffer = chars("1.2.3");
    assert_eq!(flush_number_buffer(&mut buffer, &mut tokens), Err(Error::InvalidNumber));
    assert_eq!(buffer, chars("1.2.3"));
    assert_eq!(render(&tokens), vec!["-12.5"]);
}

#[test]
fn precedence_of_the_operators() {
    assert_eq!(precedence('+'), 1);
    assert_eq!(precedence('-'), 1);
    assert_eq!(precedence('*'), 2);
    assert_eq!(precedence('/'), 2);
    assert_eq!(precedence('('), 0);
    assert_eq!(precedence('%'), 0);
}

#[test]
fn postfix_order() {
    assert_eq!(postfix_of("2 + 3 * 4"), vec!["2", "3", "4", "*", "+"]);
    assert_eq!(postfix_of("(2 + 3) * 4"), vec!["2", "3", "+", "4", "*"]);
    assert_eq!(postfix_of("8 - 3 - 2"), vec!["8", "3", "-", "2", "-"]);
    assert_eq!(postfix_of("8 / 4 / 2"), vec!["8", "4", "/", "2", "/"]);
    assert_eq!(postfix_of("1 * 2 + 3 / 4"), vec!["1", "2", "*", "3", "4", "/", "+"]);
    assert_eq!(postfix_of("1 + 2 * (3 - 4)"), vec!["1", "2", "3", "4", "-", "*", "+"]);
    assert_eq!(postfix_of("7"), vec!["7"]);
    assert_eq!(postfix_of(""), Vec::<String>::new());
}

/// The conversion itself reports nothing about parentheses that do not pair
/// up: the unmatched right one empties the operator stack, the unmatched left
/// one is emitted at the end.
#[test]
fn postfix_order_with_unmatched_parentheses() {
    assert_eq!(postfix_of("1 + 2) * 3"), vec!["1", "2", "+", "3", "*"]);
    assert_eq!(postfix_of("(1 + 2"), vec!["1", "2", "+", "("]);
    assert_eq!(postfix_of("1 * (2 + (3"), vec!["1", "2", "3", "(", "+", "(", "*"]);
    assert_eq!(postfix_of(")"), Vec::<String>::new());
}

#[test]
fn postfix_evaluation() {
    let tokens = vec![number("2"), number("3"), number("4"), Token::Operator('*'), Token::Operator('+')];
    assert_eq!(run(evaluate_rpn(tokens)), Ok(14.0));
    let tokens = vec![number("8"), number("3"), Token::Operator('-')];
    assert_eq!(run(evaluate_rpn(tokens)), Ok(5.0));
    let tokens = vec![number("8"), number("2"), Token::Operator('/')];
    assert_eq!(run(evaluate_rpn(tokens)), Ok(4.0));
}

#[test]
fn postfix_evaluation_errors() {
    assert_eq!(run(evaluate_rpn(vec![])), Err(Error::MalformedExpression));
    assert_eq!(run(evaluate_rpn(vec![number("1"), number("2")])), Err(Error::MalformedExpression));
    assert_eq!(
        run(evaluate_rpn(vec![number("1"), Token::Operator('+')])),
        Err(Error::MalformedExpression)
    );
    assert_eq!(
        run(evaluate_rpn(vec![number("1"), Token::Operator('%')])),
        Err(Error::MalformedExpression)
    );
    assert_eq!(
        run(evaluate_rpn(vec![number("1"), number("2"), Token::Operator('%')])),
        Err(Error::UnknownOperator)
    );
    assert_eq!(
        run(evaluate_rpn(vec![number("1"), number("0"), Token::Operator('/')])),
        Err(Error::DivisionByZero)
    );
    assert_eq!(run(evaluate_rpn(vec![number("1"), Token::LeftParen])), Err(Error::InvalidToken));
    assert_eq!(run(evaluate_rpn(vec![Token::RightParen, number("1")])), Err(Error::InvalidToken));
}

#[test]
fn an_evaluation_asks_one_request_at_a_time() {
    let tokens = vec![number("8"), number("3"), Token::Operator('-')];
    let first = match evaluate_rpn(tokens) {
        Progress::Suspended(pending) => pending,
        other => panic!("unexpected {:?}", other),
    };
    assert!(matches!(first.request(), Request::Literal(literal) if *literal.text() == chars("8")));
    let second = match first.resume(8.0f64.to_bits()) {
        Progress::Suspended(pending) => pending,
        other => panic!("unexpected {:?}", other),
    };
    assert!(matches!(second.request(), Request::Literal(literal) if *literal.text() == chars("3")));
    let third = match second.resume(3.0f64.to_bits()) {
        Progress::Suspended(pending) => pending,
        other => panic!("unexpected {:?}", other),
    };
    match third.request() {
        Request::Binary { operation, left, right } => {
            assert_eq!(*operation, Operation::Subtract);
            assert_eq!(*left, 8.0f64.to_bits());
            assert_eq!(*right, 3.0f64.to_bits());
        }
        other => panic!("unexpected {:?}", other),
    }
    match third.resume(5.0f64.to_bits()) {
        Progress::Finished(result) => assert_eq!(result, Ok(5.0f64.to_bits())),
        other => panic!("unexpected {:?}", other),
    }
}

#[test]
fn the_exit_command_in_either_case() {
    assert!(check_exit_command("q"));
    assert!(check_exit_command("Q"));
    assert!(!check_exit_command(""));
    assert!(!check_exit_command("qq"));
    assert!(!check_exit_command("quit"));
    assert!(!check_exit_command(" q"));
    assert!(!check_exit_command("1"));
    assert!(!check_exit_command("\u{0071}\u{0301}"));
}

#[test]
fn choosing_a_mode() {
    assert_eq!(choose_mode("--mode common"), Some(Mode::Common));
    assert_eq!(choose_mode("--mode polish"), Some(Mode::Polish));
    assert_eq!(choose_mode("--MODE Common"), Some(Mode::Common));
    assert_eq!(choose_mode("--Mode POLISH"), Some(Mode::Polish));
    assert_eq!(choose_mode("--mode"), None);
    assert_eq!(choose_mode("--mode  common"), None);
    assert_eq!(choose_mode("--mode common "), None);
    assert_eq!(choose_mode("2 + 3"), None);
    assert_eq!(choose_mode(""), None);
}

#[test]
fn a_mode_command_letter_for_letter() {
    assert_eq!(mode_for_command("--mode common"), Some(Mode::Common));
    assert_eq!(mode_for_command("--mode polish"), Some(Mode::Polish));
    assert_eq!(mode_for_command("--MODE common"), None);
    assert_eq!(mode_for_command("--mode polis"), None);
    assert_eq!(mode_for_command(""), None);
}

#[test]
fn the_name_of_a_mode() {
    assert_eq!(mode_to_string(&Some(Mode::Common)), "Common");
    assert_eq!(mode_to_string(&Some(Mode::Polish)), "Polish notation");
    assert_eq!(mode_to_string(&None), "No mode selected");
}

#[test]
fn the_commands() {
    assert_eq!(MODE_COMMON, "--mode common");
    assert_eq!(MODE_POLISH, "--mode polish");
    assert_eq!(EXIT_COMMAND, "q");
    assert_eq!(MEMORY_FLAG, "-R");
}
