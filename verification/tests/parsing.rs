use math_interp::ast::{BinOp, MathExpression};
use math_interp::grammar::Level;
use math_interp::literal::Scan;
use math_interp::number::Binary64;
use math_interp::parse::{
    atom_p, exponents_p, expression_p, factor_p, function_p, get_op, integer_p, number_of,
    number_p, operation_chain_p, terms_p, variable_p, whitespace_p, Outcome, ParseError,
};
use math_interp::text::{first_char, same_text};

fn number(x: f64) -> MathExpression {
    MathExpression::Number(Binary64::from_bits(x.to_bits()))
}

fn binary(op: BinOp, lhs: MathExpression, rhs: MathExpression) -> MathExpression {
    MathExpression::BinOp { op, lhs: Box::new(lhs), rhs: Box::new(rhs) }
}

fn variable(name: &str) -> MathExpression {
    MathExpression::Variable { name: name.to_string() }
}

fn call(name: &str, arguments: Vec<MathExpression>) -> MathExpression {
    MathExpression::Function { name: name.to_string(), arguments }
}

fn error(fragment: &str) -> Result<MathExpression, ParseError<'_>> {
    Err(ParseError::Error { fragment })
}

fn failure(fragment: &str) -> Result<MathExpression, ParseError<'_>> {
    Err(ParseError::Failure { fragment })
}

#[test]
fn whitespace_may_stand_anywhere_between_tokens() {
    assert_eq!(expression_p("  \t\n 1 \r\n"), Ok(number(1.0)));
    assert_eq!(
        expression_p("\t1\n+\r2 "),
        Ok(binary(BinOp::Add, number(1.0), number(2.0)))
    );
    assert_eq!(
        expression_p(" log ( 1 , 2 ) "),
        Ok(call("log", vec![number(1.0), number(2.0)]))
    );
    assert_eq!(expression_p("( x )"), Ok(variable("x")));
}

#[test]
fn whitespace_is_dropped_from_the_head() {
    assert_eq!(whitespace_p(" \t\r\n x "), "x ");
    assert_eq!(whitespace_p("x"), "x");
    assert_eq!(whitespace_p(""), "");
    assert_eq!(whitespace_p("\u{a0}x"), "\u{a0}x");
}

#[test]
fn number_literals() {
    assert_eq!(expression_p("1.21"), Ok(number(1.21)));
    assert_eq!(expression_p("1e5"), Ok(number(100000.0)));
    assert_eq!(expression_p("1.5e-3"), Ok(number(0.0015)));
    assert_eq!(expression_p(".5"), Ok(number(0.5)));
    assert_eq!(expression_p("5."), Ok(number(5.0)));
    assert_eq!(expression_p("-1"), Ok(number(-1.0)));
    assert_eq!(expression_p("+1"), Ok(number(1.0)));
    assert_eq!(expression_p("inf"), Ok(number(f64::INFINITY)));
    assert_eq!(expression_p("9223372036854775808"), Ok(number(9223372036854775808.0)));
}

#[test]
fn a_literal_for_no_number_is_read() {
    let canonical = MathExpression::Number(Binary64::from_bits(0x7ff8_0000_0000_0000));
    assert_eq!(expression_p("nan"), Ok(canonical));
    let canonical = MathExpression::Number(Binary64::from_bits(0x7ff8_0000_0000_0000));
    assert_eq!(expression_p("NaN"), Ok(canonical));
}

#[test]
fn a_sign_belongs_to_the_literal_behind_it() {
    assert_eq!(
        expression_p("1 - -1"),
        Ok(binary(BinOp::Subtract, number(1.0), number(-1.0)))
    );
    assert_eq!(expression_p("1-1"), Ok(binary(BinOp::Subtract, number(1.0), number(1.0))));
    assert_eq!(expression_p("- 1"), error("- 1"));
}

#[test]
fn a_literal_that_breaks_off_is_final() {
    assert_eq!(expression_p("1e"), failure("1e"));
    assert_eq!(expression_p("1 + 2e"), failure("2e"));
    assert_eq!(expression_p("sin(1e)"), failure("1e)"));
    assert_eq!(expression_p("(2e+)"), failure("2e+)"));
    assert_eq!(expression_p("sqrt(1, 2e+)"), failure("2e+)"));
}

#[test]
fn names_of_numbers_are_no_variables() {
    assert_eq!(expression_p("info"), error("o"));
    assert_eq!(expression_p("nano"), error("o"));
}

#[test]
fn variables() {
    assert_eq!(expression_p("x1y2"), Ok(variable("x1y2")));
    assert_eq!(expression_p("Xyz"), Ok(variable("Xyz")));
    assert_eq!(expression_p("e1"), Ok(variable("e1")));
    assert_eq!(expression_p("sinx"), Ok(variable("sinx")));
    assert_eq!(expression_p("sin"), Ok(variable("sin")));
    assert_eq!(expression_p("1x"), error("x"));
    assert_eq!(expression_p("x_1"), error("_1"));
}

#[test]
fn calls() {
    assert_eq!(expression_p("sine(0)"), Ok(call("sine", vec![number(0.0)])));
    assert_eq!(expression_p("sin(0)"), Ok(call("sin", vec![number(0.0)])));
    assert_eq!(expression_p("log(x)"), Ok(call("log", vec![variable("x")])));
    assert_eq!(expression_p("rand()"), Ok(call("rand", vec![])));
    assert_eq!(expression_p("rand ( )"), Ok(call("rand", vec![])));
    assert_eq!(
        expression_p("sqrt(1+2, sqrt(3), (4))"),
        Ok(call(
            "sqrt",
            vec![
                binary(BinOp::Add, number(1.0), number(2.0)),
                call("sqrt", vec![number(3.0)]),
                number(4.0)
            ]
        ))
    );
}

#[test]
fn a_call_needs_its_parentheses() {
    assert_eq!(expression_p("sin x"), error("x"));
    assert_eq!(expression_p("sin(x"), error("(x"));
    assert_eq!(expression_p("sqrt(1)(2)"), error("(2)"));
}

#[test]
fn no_comma_may_trail() {
    assert_eq!(expression_p("sqrt(1,)"), error("(1,)"));
    assert_eq!(expression_p("sqrt(,1)"), error("(,1)"));
}

#[test]
fn only_builtins_are_called() {
    assert_eq!(expression_p("foo(1)"), error("(1)"));
}

#[test]
fn what_is_left_over_is_reported() {
    assert_eq!(expression_p(""), error(""));
    assert_eq!(expression_p("   "), error(""));
    assert_eq!(expression_p("1 +"), error("+"));
    assert_eq!(expression_p("1 + (2"), error("+ (2"));
    assert_eq!(expression_p("("), error(""));
    assert_eq!(expression_p(")"), error(")"));
    assert_eq!(expression_p("()"), error(")"));
    assert_eq!(expression_p("2 3"), error("3"));
    assert_eq!(expression_p("x y"), error("y"));
    assert_eq!(expression_p("1 + + 2"), error("+ + 2"));
    assert_eq!(expression_p("1 * / 2"), error("* / 2"));
    assert_eq!(expression_p("(1 + 2))"), error(")"));
}

#[test]
fn characters_beyond_ascii_are_no_tokens() {
    assert_eq!(expression_p("é"), error("é"));
    assert_eq!(expression_p("x + é"), error("+ é"));
    assert_eq!(expression_p("x é"), error("é"));
    assert_eq!(expression_p("1\u{a0}+ 2"), error("\u{a0}+ 2"));
}

#[test]
fn levels_of_precedence() {
    assert_eq!(
        expression_p("1 + 2 * 3 ^ 4"),
        Ok(binary(
            BinOp::Add,
            number(1.0),
            binary(
                BinOp::Multiply,
                number(2.0),
                binary(BinOp::Exponent, number(3.0), number(4.0))
            )
        ))
    );
    assert_eq!(
        expression_p("a / b % c * d"),
        Ok(binary(
            BinOp::Multiply,
            binary(
                BinOp::Modulus,
                binary(BinOp::Divide, variable("a"), variable("b")),
                variable("c")
            ),
            variable("d")
        ))
    );
    assert_eq!(
        expression_p("(1 + 2) * 3"),
        Ok(binary(
            BinOp::Multiply,
            binary(BinOp::Add, number(1.0), number(2.0)),
            number(3.0)
        ))
    );
}

#[test]
fn operators_by_level() {
    assert_eq!(get_op(Level::Terms, '+'), Some(BinOp::Add));
    assert_eq!(get_op(Level::Terms, '-'), Some(BinOp::Subtract));
    assert_eq!(get_op(Level::Terms, '*'), None);
    assert_eq!(get_op(Level::Factors, '*'), Some(BinOp::Multiply));
    assert_eq!(get_op(Level::Factors, '/'), Some(BinOp::Divide));
    assert_eq!(get_op(Level::Factors, '%'), Some(BinOp::Modulus));
    assert_eq!(get_op(Level::Factors, ' '), None);
    assert_eq!(get_op(Level::Factors, '+'), None);
    assert_eq!(get_op(Level::Exponents, '^'), Some(BinOp::Exponent));
    assert_eq!(get_op(Level::Exponents, '*'), None);
}

#[test]
fn rules_leave_what_they_do_not_read() {
    assert_eq!(
        terms_p("1 + 2 ) x"),
        Outcome::Match { value: binary(BinOp::Add, number(1.0), number(2.0)), rest: ") x" }
    );
    assert_eq!(
        factor_p("2 * 3 + 4"),
        Outcome::Match { value: binary(BinOp::Multiply, number(2.0), number(3.0)), rest: "+ 4" }
    );
    assert_eq!(
        exponents_p("2 ^ 3 * 4"),
        Outcome::Match { value: binary(BinOp::Exponent, number(2.0), number(3.0)), rest: "* 4" }
    );
    assert_eq!(
        operation_chain_p(Level::Terms, "x - y, z"),
        Outcome::Match { value: binary(BinOp::Subtract, variable("x"), variable("y")), rest: ", z" }
    );
    assert_eq!(atom_p("x  + 1"), Outcome::Match { value: variable("x"), rest: "+ 1" });
    assert_eq!(atom_p("+"), Outcome::Error { at: "+" });
    assert_eq!(variable_p("abc9 !"), Outcome::Match { value: variable("abc9"), rest: "!" });
    assert_eq!(variable_p("!"), Outcome::Error { at: "!" });
    assert_eq!(
        function_p("sqrt (4) ^ 2"),
        Outcome::Match { value: call("sqrt", vec![number(4.0)]), rest: "^ 2" }
    );
    assert_eq!(function_p("sqrt 4"), Outcome::Error { at: "4" });
    assert_eq!(function_p("cos(4)"), Outcome::Error { at: "cos(4)" });
    assert_eq!(function_p("sqrt(4"), Outcome::Error { at: "" });
}

#[test]
fn numbers_from_the_recogniser() {
    assert_eq!(number_p("12.5 rest"), Outcome::Match { value: number(12.5), rest: "rest" });
    assert_eq!(number_p("x"), Outcome::Error { at: "x" });
    assert_eq!(number_p("3e+"), Outcome::Failure { at: "3e+" });
    assert_eq!(
        number_of("7  y", Scan::Literal { rest: "  y", bits: 7.0f64.to_bits() }),
        Outcome::Match { value: number(7.0), rest: "y" }
    );
    assert_eq!(
        number_of("nan", Scan::Literal { rest: "", bits: 0xfff0_0000_0000_0001 }),
        Outcome::Match {
            value: MathExpression::Number(Binary64::from_bits(0x7ff8_0000_0000_0000)),
            rest: ""
        }
    );
    assert_eq!(number_of("abc", Scan::Error), Outcome::Error { at: "abc" });
    assert_eq!(number_of("abc", Scan::Failure { at: "bc" }), Outcome::Failure { at: "bc" });
}

#[test]
fn integers_from_the_recogniser() {
    assert_eq!(integer_p("42 x"), Outcome::Match { value: number(42.0), rest: "x" });
    assert_eq!(integer_p("-17"), Outcome::Match { value: number(-17.0), rest: "" });
    assert_eq!(integer_p("+0"), Outcome::Match { value: number(0.0), rest: "" });
    assert_eq!(integer_p("007.5"), Outcome::Match { value: number(7.0), rest: ".5" });
    assert_eq!(
        integer_p("9223372036854775807"),
        Outcome::Match { value: number(9223372036854775807i64 as f64), rest: "" }
    );
    assert_eq!(
        integer_p("-9223372036854775808"),
        Outcome::Match { value: number(-9223372036854775808.0), rest: "" }
    );
    assert_eq!(integer_p("9223372036854775808"), Outcome::Error { at: "9223372036854775808" });
    assert_eq!(integer_p("-"), Outcome::Error { at: "-" });
    assert_eq!(integer_p("- 1"), Outcome::Error { at: "- 1" });
    assert_eq!(integer_p(""), Outcome::Error { at: "" });
    assert_eq!(integer_p("x1"), Outcome::Error { at: "x1" });
}

#[test]
fn the_fragment_of_an_error() {
    assert_eq!(ParseError::Error { fragment: "abc" }.fragment(), "abc");
    assert_eq!(ParseError::Failure { fragment: "1e" }.fragment(), "1e");
    assert_eq!(expression_p("1 $").unwrap_err().fragment(), "$");
}

#[test]
fn reading_text_by_characters() {
    assert_eq!(first_char(""), None);
    assert_eq!(first_char("abc"), Some('a'));
    assert_eq!(first_char("é"), Some('é'));
    assert!(same_text("sqrt", "sqrt"));
    assert!(same_text("", ""));
    assert!(same_text("é", "é"));
    assert!(!same_text("sqrt", "sqr"));
    assert!(!same_text("sqrt", "sqrT"));
}
