use math_interp::ast::{BinOp, MathExpression};
use math_interp::number::Binary64;
use math_interp::parse::{expression_p, ParseError};
use nom::branch::alt;
use nom::bytes::complete::tag;
use nom::character::complete::{alphanumeric1, i64, one_of};
use nom::combinator::eof;
use nom::error::Error;
use nom::multi::{many0, separated_list0};
use nom::number::complete::double;
use nom::sequence::{delimited, pair, terminated};
use nom::{IResult, Parser};

fn spaces(input: &str) -> IResult<&str, ()> {
    nom::combinator::map(many0(one_of("\n\t\r ")), |_| ()).parse(input)
}

fn number(x: f64) -> MathExpression {
    MathExpression::Number(Binary64::from_bits(x.to_bits()))
}

fn operator(c: char) -> BinOp {
    match c {
        '*' => BinOp::Multiply,
        '/' => BinOp::Divide,
        '^' => BinOp::Exponent,
        '-' => BinOp::Subtract,
        '+' => BinOp::Add,
        _ => BinOp::Modulus,
    }
}

fn chained<'a>(
    operators: &'static str,
    operand: fn(&'a str) -> IResult<&'a str, MathExpression>,
    input: &'a str,
) -> IResult<&'a str, MathExpression> {
    nom::combinator::map(
        pair(operand, many0(pair(terminated(one_of(operators), spaces), operand))),
        |(first, rest)| {
            rest.into_iter().fold(first, |left, (c, right)| MathExpression::BinOp {
                op: operator(c),
                lhs: Box::new(left),
                rhs: Box::new(right),
            })
        },
    )
    .parse(input)
}

fn terms(input: &str) -> IResult<&str, MathExpression> {
    chained("+-", factors, input)
}

fn factors(input: &str) -> IResult<&str, MathExpression> {
    chained("*/%", exponents, input)
}

fn exponents(input: &str) -> IResult<&str, MathExpression> {
    chained("^", atom, input)
}

fn literal(input: &str) -> IResult<&str, MathExpression> {
    terminated(
        alt((
            nom::combinator::map(double, number),
            nom::combinator::map(i64, |v| number(v as f64)),
        )),
        spaces,
    )
    .parse(input)
}

fn name(input: &str) -> IResult<&str, MathExpression> {
    nom::combinator::map(terminated(alphanumeric1, spaces), |s: &str| MathExpression::Variable {
        name: s.to_string(),
    })
    .parse(input)
}

fn call(input: &str) -> IResult<&str, MathExpression> {
    nom::combinator::map(
        pair(
            terminated(
                alt((tag("sine"), tag("sin"), tag("log"), tag("rand"), tag("sqrt"))),
                spaces,
            ),
            delimited(
                terminated(tag("("), spaces),
                separated_list0(terminated(tag(","), spaces), terms),
                terminated(tag(")"), spaces),
            ),
        ),
        |(name, arguments): (&str, Vec<MathExpression>)| MathExpression::Function {
            name: name.to_string(),
            arguments,
        },
    )
    .parse(input)
}

fn atom(input: &str) -> IResult<&str, MathExpression> {
    alt((
        literal,
        call,
        name,
        delimited(terminated(tag("("), spaces), terms, terminated(tag(")"), spaces)),
    ))
    .parse(input)
}

fn with_combinators(input: &str) -> Result<MathExpression, ParseError<'_>> {
    let mut whole = (spaces, terms, eof::<&str, Error<&str>>);
    match whole.parse(input) {
        Ok((_, (_, tree, _))) => Ok(tree),
        Err(nom::Err::Error(error)) => Err(ParseError::Error { fragment: error.input }),
        Err(nom::Err::Failure(error)) => Err(ParseError::Failure { fragment: error.input }),
        Err(nom::Err::Incomplete(_)) => panic!("the end of the input is known"),
    }
}

fn same(a: &Result<MathExpression, ParseError>, b: &Result<MathExpression, ParseError>) -> bool {
    match (a, b) {
        (Ok(x), Ok(y)) => same_tree(x, y),
        (Err(x), Err(y)) => x == y,
        _ => false,
    }
}

fn same_tree(a: &MathExpression, b: &MathExpression) -> bool {
    match (a, b) {
        (MathExpression::Number(x), MathExpression::Number(y)) => {
            x == y || (x.is_nan() && y.is_nan())
        }
        (
            MathExpression::BinOp { op, lhs, rhs },
            MathExpression::BinOp { op: op2, lhs: lhs2, rhs: rhs2 },
        ) => op == op2 && same_tree(lhs, lhs2) && same_tree(rhs, rhs2),
        (
            MathExpression::Function { name, arguments },
            MathExpression::Function { name: name2, arguments: arguments2 },
        ) => {
            name == name2
                && arguments.len() == arguments2.len()
                && arguments.iter().zip(arguments2).all(|(x, y)| same_tree(x, y))
        }
        (MathExpression::Variable { name }, MathExpression::Variable { name: name2 }) => {
            name == name2
        }
        _ => false,
    }
}

struct Noise(u64);

impl Noise {
    fn next(&mut self) -> u64 {
        self.0 ^= self.0 << 13;
        self.0 ^= self.0 >> 7;
        self.0 ^= self.0 << 17;
        self.0
    }

    fn below(&mut self, bound: usize) -> usize {
        (self.next() % bound as u64) as usize
    }
}

fn compare(input: &str) {
    let ours = expression_p(input);
    let theirs = with_combinators(input);
    assert!(same(&ours, &theirs), "{:?}: {:?} but {:?}", input, ours, theirs);
}

#[test]
fn agrees_with_combinators_on_chosen_texts() {
    for input in [
        "", " ", "1", "1.21", "x", "(((x)))", "rand()", "1+2", " 1 + 2 - 3 + 4", "1 + 2 * 3 - 4",
        "1e", "1e+", "1e5", "1.e5", ".5", "5.", ".", "+", "-", "+1", "-1", "--1", "1 - -1",
        "inf", "info", "infinity", "infinityx", "nan", "NaN", "nano", "INF", "-inf", "+nan",
        "sin", "sine", "sinx", "sin(", "sin()", "sin(1", "sin(1,", "sin(1,)", "sin(,)", "sin x",
        "sine (1 , 2 )", "log(log(log(1)))", "sqrt(1)(2)", "foo(1)", "(", ")", "()", "(1", "1)",
        "((1)", "(1))", "1 2", "1 +", "+ 1", "1 + + 2", "1 * / 2", "2 ^ 3 ^ 4", "2 ^ -3",
        "a/b%c*d", "1 %2", "1\t+\n2\r", "é", "1 + é", "x é", "9223372036854775807",
        "9223372036854775808", "-9223372036854775809", "0x10", "1_000", "1,2", "e1", "E", "e",
        "1e1e1", "1..2", "1.2.3", "00012", "1 (2)", "x(1)", "rand ()", "rand( )", "sqrt(1e)",
    ] {
        compare(input);
    }
}

#[test]
fn agrees_with_combinators_on_random_texts() {
    let alphabet: Vec<char> =
        "0123456789..eE++--**//%%^^(()),,  \t\nsinecoqrtlgadfxyzN_é".chars().collect();
    let mut noise = Noise(0x2545_f491_4f6c_dd1d);
    for _ in 0..60000 {
        let len = noise.below(14);
        let input: String = (0..len).map(|_| alphabet[noise.below(alphabet.len())]).collect();
        compare(&input);
    }
}

fn spell(noise: &mut Noise, depth: usize, out: &mut String) {
    let gap = |noise: &mut Noise, out: &mut String| {
        for _ in 0..noise.below(3) {
            out.push([' ', '\t', '\n'][noise.below(3)]);
        }
    };
    let kinds = if depth == 0 { 2 } else { 6 };
    match noise.below(kinds) {
        0 => {
            let literals =
                ["0", "1", "2.5", ".5", "7.", "1e3", "12E-2", "-3", "+4", "inf", "nan", "1e"];
            out.push_str(literals[noise.below(literals.len())]);
        }
        1 => {
            let names = ["x", "y1", "sin", "sine", "logs", "e", "rand", "sqrt", "in", "n"];
            out.push_str(names[noise.below(names.len())]);
        }
        2 | 3 => {
            spell(noise, depth - 1, out);
            gap(noise, out);
            out.push(['+', '-', '*', '/', '%', '^'][noise.below(6)]);
            gap(noise, out);
            spell(noise, depth - 1, out);
        }
        4 => {
            out.push('(');
            gap(noise, out);
            spell(noise, depth - 1, out);
            gap(noise, out);
            if noise.below(10) > 0 {
                out.push(')');
            }
        }
        _ => {
            let names = ["sin", "sine", "log", "rand", "sqrt", "cos"];
            out.push_str(names[noise.below(names.len())]);
            gap(noise, out);
            out.push('(');
            let count = noise.below(4);
            for i in 0..count {
                if i > 0 {
                    out.push(',');
                }
                gap(noise, out);
                spell(noise, depth - 1, out);
            }
            if noise.below(10) > 0 {
                out.push(')');
            }
        }
    }
}

#[test]
fn agrees_with_combinators_on_random_expressions() {
    let mut noise = Noise(0x9e37_79b9_7f4a_7c15);
    for _ in 0..20000 {
        let mut input = String::new();
        spell(&mut noise, 4, &mut input);
        compare(&input);
    }
}
