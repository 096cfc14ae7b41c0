use math_interp::ast::{BinOp, MathExpression};
use math_interp::environment::Environment;
use math_interp::functions::{Arity, Builtin};
use math_interp::interpreter::error::InterpreterError;
use math_interp::interpreter::{interpret, Request, Step};
use math_interp::number::Binary64;
use math_interp::parse::{expression_p, ParseError};
use rand::Rng;

fn value(x: f64) -> Binary64 {
    Binary64::from_bits(x.to_bits())
}

fn number(x: f64) -> MathExpression {
    MathExpression::Number(value(x))
}

fn binary(op: BinOp, lhs: MathExpression, rhs: MathExpression) -> MathExpression {
    MathExpression::BinOp { op, lhs: Box::new(lhs), rhs: Box::new(rhs) }
}

fn variable(name: &str) -> MathExpression {
    MathExpression::Variable { name: name.to_string() }
}

fn bindings(pairs: &[(&str, f64)]) -> Environment {
    let mut environment = Environment::new();
    for (name, x) in pairs {
        environment.insert(name.to_string(), value(*x));
    }
    environment
}

fn perform(request: &Request) -> f64 {
    match request {
        Request::Binary { op, lhs, rhs } => {
            let a = f64::from_bits(lhs.to_bits());
            let b = f64::from_bits(rhs.to_bits());
            match op {
                BinOp::Add => a + b,
                BinOp::Subtract => a - b,
                BinOp::Multiply => a * b,
                BinOp::Divide => a / b,
                BinOp::Exponent => a.powf(b),
                BinOp::Modulus => a % b,
            }
        }
        Request::Call { function, arguments } => {
            let v: Vec<f64> = arguments.iter().map(|a| f64::from_bits(a.to_bits())).collect();
            match function {
                Builtin::Sine => v[0].sin(),
                Builtin::Log => v[0].ln(),
                Builtin::Rand => rand::rng().random(),
                Builtin::Sqrt => v[0].sqrt(),
            }
        }
    }
}

fn run(expr: &MathExpression, environment: &Environment) -> Result<f64, InterpreterError> {
    let (mut evaluation, mut step) = interpret(expr, environment);
    loop {
        match step {
            Step::Done(result) => {
                assert!(!evaluation.is_awaiting());
                return result.map(|v| f64::from_bits(v.to_bits()));
            }
            Step::Need(request) => {
                assert!(evaluation.is_awaiting());
                step = evaluation.resume(value(perform(&request)));
            }
        }
    }
}

fn evaluate(text: &str, pairs: &[(&str, f64)]) -> Result<f64, InterpreterError> {
    run(&expression_p(text).unwrap(), &bindings(pairs))
}

#[test]
fn test_parse() -> Result<(), ParseError<'static>> {
    assert_eq!(expression_p("1.21")?, number(1.21));
    assert_eq!(expression_p("1")?, number(1.0));
    assert_eq!(expression_p("x")?, variable("x"));
    assert_eq!(expression_p("(((x)))")?, variable("x"));
    assert_eq!(
        expression_p("rand()")?,
        MathExpression::Function { name: "rand".to_string(), arguments: Vec::new() }
    );
    assert_eq!(expression_p("1+2")?, binary(BinOp::Add, number(1.0), number(2.0)));
    assert_eq!(
        expression_p(" 1 + 2 - 3 + 4")?,
        binary(
            BinOp::Add,
            binary(
                BinOp::Subtract,
                binary(BinOp::Add, number(1.0), number(2.0)),
                number(3.0)
            ),
            number(4.0)
        )
    );
    assert_eq!(
        expression_p("1 + 2 * 3 - 4")?,
        binary(
            BinOp::Subtract,
            binary(
                BinOp::Add,
                number(1.0),
                binary(BinOp::Multiply, number(2.0), number(3.0))
            ),
            number(4.0)
        )
    );
    Ok(())
}

#[test]
fn test_interpret() -> Result<(), InterpreterError> {
    assert_eq!(run(&expression_p("1.21").unwrap(), &Environment::new())?, 1.21);
    assert_eq!(
        run(&expression_p("x").unwrap(), &Environment::new()).unwrap_err(),
        InterpreterError::UnboundVariable { variable_name: "x".to_string() }
    );
    assert_eq!(
        run(&expression_p("x").unwrap(), &{
            let mut map = Environment::new();
            map.insert("x".to_string(), value(3.14159));
            map
        })?,
        3.14159
    );
    assert_eq!(
        run(&expression_p("sqrt(x) + sqrt(y)").unwrap(), &{
            let mut map = Environment::new();
            map.insert("x".to_string(), value(196.0));
            map.insert("y".to_string(), value(169.0));
            map
        })?,
        27.0
    );
    assert_eq!(run(&expression_p("32 ^ (1/5)").unwrap(), &Environment::new())?, 2.0);
    assert_eq!(
        run(&expression_p("32 ^ (1/0)").unwrap(), &Environment::new()).unwrap_err(),
        InterpreterError::DivideByZero { dividend: value(1.0), divisor: value(0.0) }
    );
    Ok(())
}

#[test]
fn precedence_of_multiplication() {
    assert_eq!(evaluate("1 + 2 * 3 - 4", &[]), Ok(3.0));
}

#[test]
fn addition_and_subtraction_associate_left() {
    assert_eq!(evaluate("1 + 2 - 3 + 4", &[]), Ok(4.0));
}

#[test]
fn powers_associate_left() {
    assert_eq!(evaluate("2 ^ 3 ^ 2", &[]), Ok(64.0));
    assert_eq!(
        expression_p("a^b^c").unwrap(),
        binary(
            BinOp::Exponent,
            binary(BinOp::Exponent, variable("a"), variable("b")),
            variable("c")
        )
    );
}

#[test]
fn parentheses_leave_no_node() {
    assert_eq!(expression_p("(((x)))").unwrap(), expression_p("x").unwrap());
    assert_eq!(expression_p("( 1 + ( 2 ) )").unwrap(), expression_p("1+2").unwrap());
}

#[test]
fn division_by_zero() {
    let expected = InterpreterError::DivideByZero { dividend: value(1.0), divisor: value(0.0) };
    assert_eq!(evaluate("1/0", &[]), Err(expected));
    let expected = InterpreterError::DivideByZero { dividend: value(1.0), divisor: value(0.0) };
    assert_eq!(evaluate("32 ^ (1/0)", &[]), Err(expected));
}

#[test]
fn division_by_negative_zero() {
    let expected = InterpreterError::DivideByZero { dividend: value(1.0), divisor: value(-0.0) };
    assert_eq!(evaluate("1/(-0.0)", &[]), Err(expected));
}

#[test]
fn division_by_tiny_divisor_is_not_trapped() {
    assert_eq!(evaluate("1/1e-320", &[]), Ok(f64::INFINITY));
}

#[test]
fn undefined_powers_of_zero() {
    assert_eq!(evaluate("0^0", &[]), Err(InterpreterError::Undefined));
    assert_eq!(evaluate("0^(-1)", &[]), Err(InterpreterError::Undefined));
    assert_eq!(evaluate("0^1", &[]), Ok(0.0));
    assert_eq!(evaluate("2^0", &[]), Ok(1.0));
}

#[test]
fn variables_are_read_from_the_environment() {
    assert_eq!(
        evaluate("x", &[]),
        Err(InterpreterError::UnboundVariable { variable_name: "x".to_string() })
    );
    assert_eq!(evaluate("x", &[("x", 3.14159)]), Ok(3.14159));
}

#[test]
fn functions_compose() {
    assert_eq!(evaluate("sqrt(x) + sqrt(y)", &[("x", 196.0), ("y", 169.0)]), Ok(27.0));
    assert_eq!(evaluate("sqrt(sqrt(16))", &[]), Ok(2.0));
    assert_eq!(evaluate("log(1)", &[]), Ok(0.0));
    assert_eq!(evaluate("sin(0)", &[]), Ok(0.0));
    assert_eq!(evaluate("sine(0)", &[]), Ok(0.0));
}

#[test]
fn arity_is_enforced() {
    let exactly_one = Arity { lower: Some(1), upper: Some(1) };
    assert_eq!(
        evaluate("sqrt()", &[]),
        Err(InterpreterError::FunctionArityMismatch {
            function: "sqrt".to_string(),
            arity: exactly_one
        })
    );
    assert_eq!(
        evaluate("sqrt(1,2)", &[]),
        Err(InterpreterError::FunctionArityMismatch {
            function: "sqrt".to_string(),
            arity: exactly_one
        })
    );
    assert_eq!(
        evaluate("rand(1)", &[]),
        Err(InterpreterError::FunctionArityMismatch {
            function: "rand".to_string(),
            arity: Arity { lower: Some(0), upper: Some(0) }
        })
    );
}

#[test]
fn arity_mismatch_names_the_registered_function() {
    assert_eq!(
        evaluate("sin(1, 2)", &[]),
        Err(InterpreterError::FunctionArityMismatch {
            function: "sine".to_string(),
            arity: Arity { lower: Some(1), upper: Some(1) }
        })
    );
}

#[test]
fn unknown_function() {
    let call = MathExpression::Function { name: "foo".to_string(), arguments: vec![number(1.0)] };
    assert_eq!(
        run(&call, &Environment::new()),
        Err(InterpreterError::UnknownFunction {
            function: "foo".to_string(),
            args: vec![value(1.0)]
        })
    );
}

#[test]
fn unknown_function_is_no_call_in_the_grammar() {
    assert_eq!(expression_p("foo(1)"), Err(ParseError::Error { fragment: "(1)" }));
}

#[test]
fn arguments_are_evaluated_before_the_lookup() {
    let call = MathExpression::Function {
        name: "foo".to_string(),
        arguments: vec![
            number(1.0),
            variable("missing"),
            binary(BinOp::Divide, number(1.0), number(0.0)),
        ],
    };
    assert_eq!(
        run(&call, &Environment::new()),
        Err(InterpreterError::UnboundVariable { variable_name: "missing".to_string() })
    );
}

#[test]
fn zero_arity_call() {
    let tree = expression_p("rand()").unwrap();
    assert_eq!(tree, MathExpression::Function { name: "rand".to_string(), arguments: vec![] });
    for _ in 0..100 {
        let x = run(&tree, &Environment::new()).unwrap();
        assert!(0.0 <= x && x < 1.0);
    }
}

#[test]
fn exponentiation() {
    assert_eq!(evaluate("32 ^ (1/5)", &[]), Ok(2.0));
}

#[test]
fn modulus_takes_the_sign_of_the_dividend() {
    assert_eq!(evaluate("7 % 3", &[]), Ok(1.0));
    assert_eq!(evaluate("(-7) % 3", &[]), Ok(-1.0));
    assert_eq!(evaluate("7.5 % 2", &[]), Ok(1.5));
    assert!(evaluate("1 % 0", &[]).unwrap().is_nan());
}

#[test]
fn edge_cases_of_builtins_pass_through() {
    assert!(evaluate("sqrt(0 - 1)", &[]).unwrap().is_nan());
    assert!(evaluate("log(0 - 1)", &[]).unwrap().is_nan());
    assert_eq!(evaluate("log(0)", &[]), Ok(f64::NEG_INFINITY));
}

#[test]
fn left_operand_fails_first() {
    assert_eq!(
        evaluate("a + b", &[]),
        Err(InterpreterError::UnboundVariable { variable_name: "a".to_string() })
    );
    assert_eq!(
        evaluate("a + b", &[("a", 1.0)]),
        Err(InterpreterError::UnboundVariable { variable_name: "b".to_string() })
    );
    assert_eq!(
        evaluate("(1/0) + b", &[]),
        Err(InterpreterError::DivideByZero { dividend: value(1.0), divisor: value(0.0) })
    );
}

#[test]
fn evaluation_is_repeatable() {
    let tree = expression_p("sqrt(x) * 3 - y / 7 % 2").unwrap();
    let environment = bindings(&[("x", 2.0), ("y", 11.0)]);
    let first = run(&tree, &environment);
    for _ in 0..10 {
        assert_eq!(run(&tree, &environment), first);
    }
}

#[test]
fn requests_come_in_evaluation_order() {
    let tree = expression_p("(1 + 2) * sqrt(9)").unwrap();
    let environment = Environment::new();
    let (mut evaluation, step) = interpret(&tree, &environment);
    assert_eq!(
        step,
        Step::Need(Request::Binary { op: BinOp::Add, lhs: value(1.0), rhs: value(2.0) })
    );
    let step = evaluation.resume(value(3.0));
    assert_eq!(
        step,
        Step::Need(Request::Call { function: Builtin::Sqrt, arguments: vec![value(9.0)] })
    );
    let step = evaluation.resume(value(3.0));
    assert_eq!(
        step,
        Step::Need(Request::Binary { op: BinOp::Multiply, lhs: value(3.0), rhs: value(3.0) })
    );
    let step = evaluation.resume(value(9.0));
    assert_eq!(step, Step::Done(Ok(value(9.0))));
    assert!(!evaluation.is_awaiting());
}

#[test]
fn replies_are_taken_as_given() {
    let tree = expression_p("1 + 1").unwrap();
    let environment = Environment::new();
    let (mut evaluation, _) = interpret(&tree, &environment);
    assert_eq!(evaluation.resume(value(5.0)), Step::Done(Ok(value(5.0))));
}

#[test]
fn a_number_needs_no_request() {
    let tree = number(4.5);
    let environment = Environment::new();
    let (evaluation, step) = interpret(&tree, &environment);
    assert_eq!(step, Step::Done(Ok(value(4.5))));
    assert!(!evaluation.is_awaiting());
}

fn recursively(
    expr: &MathExpression,
    environment: &[(&str, f64)],
) -> Result<f64, InterpreterError> {
    match expr {
        MathExpression::Number(v) => Ok(f64::from_bits(v.to_bits())),
        MathExpression::Variable { name } => environment
            .iter()
            .rev()
            .find(|(bound, _)| bound == name)
            .map(|(_, x)| *x)
            .ok_or_else(|| InterpreterError::UnboundVariable { variable_name: name.clone() }),
        MathExpression::BinOp { op, lhs, rhs } => {
            let lhs = recursively(lhs, environment)?;
            let rhs = recursively(rhs, environment)?;
            match op {
                BinOp::Add => Ok(lhs + rhs),
                BinOp::Subtract => Ok(lhs - rhs),
                BinOp::Multiply => Ok(lhs * rhs),
                BinOp::Divide => {
                    if rhs != 0.0 {
                        Ok(lhs / rhs)
                    } else {
                        Err(InterpreterError::DivideByZero {
                            dividend: value(lhs),
                            divisor: value(rhs),
                        })
                    }
                }
                BinOp::Exponent => {
                    if lhs == 0.0 && rhs <= 0.0 {
                        Err(InterpreterError::Undefined)
                    } else {
                        Ok(lhs.powf(rhs))
                    }
                }
                BinOp::Modulus => Ok(lhs % rhs),
            }
        }
        MathExpression::Function { name, arguments } => {
            let mut values = Vec::new();
            for argument in arguments {
                values.push(recursively(argument, environment)?);
            }
            let exactly_one = Arity { lower: Some(1), upper: Some(1) };
            let (registered, arity) = match name.as_str() {
                "sin" | "sine" => ("sine", exactly_one),
                "log" => ("log", exactly_one),
                "sqrt" => ("sqrt", exactly_one),
                "rand" => ("rand", Arity { lower: Some(0), upper: Some(0) }),
                _ => {
                    return Err(InterpreterError::UnknownFunction {
                        function: name.clone(),
                        args: values.into_iter().map(value).collect(),
                    })
                }
            };
            if !arity.is_valid(values.len()) {
                return Err(InterpreterError::FunctionArityMismatch {
                    function: registered.to_string(),
                    arity,
                });
            }
            Ok(match registered {
                "sine" => values[0].sin(),
                "log" => values[0].ln(),
                "sqrt" => values[0].sqrt(),
                _ => 0.5,
            })
        }
    }
}

struct Noise(u64);

impl Noise {
    fn below(&mut self, bound: usize) -> usize {
        self.0 ^= self.0 << 13;
        self.0 ^= self.0 >> 7;
        self.0 ^= self.0 << 17;
        (self.0 % bound as u64) as usize
    }
}

fn grow(noise: &mut Noise, depth: usize) -> MathExpression {
    let kinds = if depth == 0 { 2 } else { 5 };
    match noise.below(kinds) {
        0 => {
            let values = [0.0, -0.0, 1.0, -1.0, 2.0, 0.5, -3.25, 1e300, f64::INFINITY, f64::NAN];
            number(values[noise.below(values.len())])
        }
        1 => variable(["x", "y", "zero", "missing"][noise.below(4)]),
        2 | 3 => {
            let ops = [
                BinOp::Add,
                BinOp::Subtract,
                BinOp::Multiply,
                BinOp::Divide,
                BinOp::Exponent,
                BinOp::Modulus,
            ];
            let op = ops[noise.below(ops.len())];
            binary(op, grow(noise, depth - 1), grow(noise, depth - 1))
        }
        _ => {
            let names = ["sin", "sine", "log", "sqrt", "cos"];
            let name = names[noise.below(names.len())].to_string();
            let count = [1, 1, 1, 0, 2, 3][noise.below(6)];
            let arguments = (0..count).map(|_| grow(noise, depth - 1)).collect();
            MathExpression::Function { name, arguments }
        }
    }
}

fn alike(a: &Result<f64, InterpreterError>, b: &Result<f64, InterpreterError>) -> bool {
    match (a, b) {
        (Ok(x), Ok(y)) => x.to_bits() == y.to_bits() || (x.is_nan() && y.is_nan()),
        (Err(x), Err(y)) => x == y,
        _ => false,
    }
}

#[test]
fn agrees_with_a_recursive_walk() {
    let pairs = [("x", 2.0), ("y", -7.5), ("zero", 0.0)];
    let environment = bindings(&pairs);
    let mut noise = Noise(0x2545_f491_4f6c_dd1d);
    for _ in 0..20000 {
        let tree = grow(&mut noise, 4);
        let stepwise = run(&tree, &environment);
        let direct = recursively(&tree, &pairs);
        assert!(alike(&stepwise, &direct), "{:?}: {:?} but {:?}", tree, stepwise, direct);
    }
}
