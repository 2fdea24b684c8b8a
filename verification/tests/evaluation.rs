use soundcalc::ast::{BinaryOperator, Expression, Node, UnaryOperator};
use soundcalc::environment::Environment;
use soundcalc::error::{Error, Operator};
use soundcalc::evaluate::{apply_binary, apply_unary, compare_strings, Recording};
use soundcalc::function::{
    Argument, Bindings, Exp, Function, Linear, PrimitiveRealFunction1, PrimitiveRealFunction2, RealFunction, Sin,
};
use soundcalc::lexer::Lexer;
use soundcalc::number::{BinaryFunction, Operation, Real, UnaryFunction};
use soundcalc::parser::parse_expression;
use soundcalc::pos::{CharPos, Pos};
use soundcalc::token::TokenName;
use soundcalc::value::{Sound, Value};

fn number(x: f64) -> Real {
    Real::from_bits(x.to_bits())
}

fn float(x: Real) -> f64 {
    f64::from_bits(x.to_bits())
}

fn arithmetic(operation: Operation) -> Real {
    number(match operation {
        Operation::Unary(function, x) => {
            let x = float(x);
            match function {
                UnaryFunction::Sin => x.sin(),
                UnaryFunction::Cos => x.cos(),
                UnaryFunction::Tan => x.tan(),
                UnaryFunction::Ln => x.ln(),
                UnaryFunction::Log10 => x.log10(),
                UnaryFunction::Exp => x.exp(),
            }
        }
        Operation::Binary(function, x, y) => {
            let (x, y) = (float(x), float(y));
            match function {
                BinaryFunction::Add => x + y,
                BinaryFunction::Sub => x - y,
                BinaryFunction::Mul => x * y,
                BinaryFunction::Div => x / y,
                BinaryFunction::Pow => x.powf(y),
                BinaryFunction::Max => x.max(y),
                BinaryFunction::Min => x.min(y),
            }
        }
        Operation::Random(_) => 0.5,
    })
}

fn sin() -> RealFunction {
    RealFunction::Unary(PrimitiveRealFunction1(UnaryFunction::Sin))
}

fn max() -> RealFunction {
    RealFunction::Binary(PrimitiveRealFunction2(BinaryFunction::Max))
}

fn variables() -> Environment {
    let mut variables = Environment::new();
    variables.insert("sin".to_string(), Value::RealFunction(sin()));
    variables.insert("max".to_string(), Value::RealFunction(max()));
    variables.insert("PI".to_string(), Value::Real(number(std::f64::consts::PI)));
    variables.insert("True".to_string(), Value::Bool(true));
    variables.insert("False".to_string(), Value::Bool(false));
    variables.insert("Sin".to_string(), Value::Function(Function::Sin(Sin)));
    variables.insert("Exp".to_string(), Value::Function(Function::Exp(Exp)));
    variables.insert("Linear".to_string(), Value::Function(Function::Linear(Linear)));
    variables.insert("Rand".to_string(), Value::Sound(Sound::Rand));
    variables
}

fn parse(source: &str) -> Expression {
    let mut lexer = Lexer::new(false);
    lexer.read_line(source).unwrap();
    let mut tokens = Vec::new();
    while let Some(token) = lexer.next() {
        tokens.push(token);
    }
    let literals: Vec<Option<Real>> = tokens
        .iter()
        .map(|token| match token.name {
            TokenName::Number { .. } => token.lexeme.parse::<f64>().ok().map(number),
            _ => None,
        })
        .collect();
    parse_expression(&tokens, &literals, 0).unwrap().0.unwrap()
}

fn run(source: &str) -> (Option<Result<Value, Error>>, Vec<Recording>) {
    let mut recordings = Vec::new();
    let line = format!("{};\n", source);
    let result = parse(&line).evaluate(&variables(), &arithmetic, &mut recordings);
    (result, recordings)
}

fn eval(source: &str) -> Result<Value, Error> {
    run(source).0.unwrap()
}

fn at(start: usize, end: usize) -> Pos {
    Pos::new(CharPos::new(1, start), CharPos::new(1, end))
}

fn scalar(source: &str) -> f64 {
    match eval(source) {
        Ok(Value::Real(x)) => float(x),
        other => panic!("{:?}", other),
    }
}

fn oscillator(frequency: f64) -> Sound {
    Sound::Sin { frequency: number(frequency), phase: number(0.0) }
}

fn boxed(sound: Sound) -> Box<Sound> {
    Box::new(sound)
}

#[test]
fn a_scalar_plus_a_signal_is_a_signal() {
    assert_eq!(
        eval("1 + Sin(440)"),
        Ok(Value::Sound(Sound::Add(boxed(Sound::Const(number(1.0))), boxed(oscillator(440.0)))))
    );
}

#[test]
fn a_signal_and_a_scalar_lift_on_either_side() {
    let constant = |x: f64| boxed(Sound::Const(number(x)));
    let tone = || boxed(oscillator(2.0));
    assert_eq!(eval("Sin(2) + 1"), Ok(Value::Sound(Sound::Add(tone(), constant(1.0)))));
    assert_eq!(eval("3 - Sin(2)"), Ok(Value::Sound(Sound::Sub(constant(3.0), tone()))));
    assert_eq!(eval("Sin(2) - 3"), Ok(Value::Sound(Sound::Sub(tone(), constant(3.0)))));
    assert_eq!(eval("3 * Sin(2)"), Ok(Value::Sound(Sound::Mul(constant(3.0), tone()))));
    assert_eq!(eval("Sin(2) * 3"), Ok(Value::Sound(Sound::Mul(tone(), constant(3.0)))));
    assert_eq!(eval("3 / Sin(2)"), Ok(Value::Sound(Sound::Div(constant(3.0), tone()))));
    assert_eq!(eval("Sin(2) / 3"), Ok(Value::Sound(Sound::Div(tone(), constant(3.0)))));
    assert_eq!(eval("3 ^ Sin(2)"), Ok(Value::Sound(Sound::Pow(constant(3.0), tone()))));
    assert_eq!(eval("Sin(2) ^ 3"), Ok(Value::Sound(Sound::Pow(tone(), constant(3.0)))));
    assert_eq!(eval("Sin(2) * Rand"), Ok(Value::Sound(Sound::Mul(tone(), boxed(Sound::Rand)))));
    assert_eq!(eval("-Sin(2)"), Ok(Value::Sound(Sound::Minus(tone()))));
    assert_eq!(eval("/Sin(2)"), Ok(Value::Sound(Sound::Reciprocal(tone()))));
}

#[test]
fn a_real_function_of_reals_is_applied_at_once() {
    assert_eq!(eval("sin(0.5)"), Ok(Value::Real(number(0.5f64.sin()))));
    assert_eq!(eval("max(2, 3)"), Ok(Value::Real(number(3.0))));
}

#[test]
fn a_real_function_of_a_signal_is_a_function_signal() {
    assert_eq!(
        eval("sin(Sin(2))"),
        Ok(Value::Sound(Sound::Function(sin(), vec![Value::Sound(oscillator(2.0))], Vec::new())))
    );
    assert_eq!(
        eval("max(0.5, Sin(2))"),
        Ok(Value::Sound(Sound::Function(
            max(),
            vec![Value::Real(number(0.5)), Value::Sound(oscillator(2.0))],
            Vec::new()
        )))
    );
}

#[test]
fn and_of_two_numbers_is_a_type_error() {
    assert_eq!(
        eval("2 && 3"),
        Err(Error::TypeMismatch(Operator::Binary(BinaryOperator::And), Value::Real(number(2.0)), None, at(0, 6)))
    );
    assert_eq!(
        eval("2 || 3"),
        Err(Error::TypeMismatch(Operator::Binary(BinaryOperator::Or), Value::Real(number(2.0)), None, at(0, 6)))
    );
}

#[test]
fn the_right_operand_of_and_must_be_a_boolean_where_it_is_needed() {
    assert_eq!(
        eval("True && 3"),
        Err(Error::TypeMismatch(
            Operator::Binary(BinaryOperator::And),
            Value::Bool(true),
            Some(Value::Real(number(3.0))),
            at(0, 9)
        ))
    );
    assert_eq!(
        eval("False || 3"),
        Err(Error::TypeMismatch(
            Operator::Binary(BinaryOperator::Or),
            Value::Bool(false),
            Some(Value::Real(number(3.0))),
            at(0, 10)
        ))
    );
}

#[test]
fn the_right_operand_is_not_evaluated_where_the_left_one_decides() {
    assert_eq!(eval("False && 3"), Ok(Value::Bool(false)));
    assert_eq!(eval("True || 3"), Ok(Value::Bool(true)));
    assert_eq!(eval("False && nothing"), Ok(Value::Bool(false)));
    assert_eq!(eval("True || nothing"), Ok(Value::Bool(true)));
    assert_eq!(run("False && Rand(\"a.wav\", 1)").1, Vec::new());
}

#[test]
fn and_and_or_of_booleans() {
    assert_eq!(eval("True && True"), Ok(Value::Bool(true)));
    assert_eq!(eval("True && False"), Ok(Value::Bool(false)));
    assert_eq!(eval("False || True"), Ok(Value::Bool(true)));
    assert_eq!(eval("False || False"), Ok(Value::Bool(false)));
}

#[test]
fn too_many_arguments_are_an_arity_error() {
    assert_eq!(eval("max(1, 2, 3)"), Err(Error::ArityMismatch(2, 3, at(0, 12))));
    assert_eq!(eval("Linear(1, 2, 3)"), Err(Error::ArityMismatch(2, 3, at(0, 15))));
}

#[test]
fn too_few_arguments_are_an_arity_error() {
    assert_eq!(eval("max(1)"), Err(Error::ArityMismatch(2, 1, at(0, 6))));
    assert_eq!(eval("sin()"), Err(Error::ArityMismatch(1, 0, at(0, 5))));
    assert_eq!(eval("Sin()"), Err(Error::ArityMismatch(1, 0, at(0, 5))));
    assert_eq!(eval("Rand(\"a.wav\")"), Err(Error::ArityMismatch(2, 1, at(0, 13))));
}

#[test]
fn an_argument_of_a_wrong_type_is_a_type_error() {
    assert_eq!(
        eval("sin(True)"),
        Err(Error::TypeMismatch(Operator::Call, Value::Bool(true), None, at(0, 9)))
    );
    assert_eq!(
        eval("max(Sin(1), \"a\")"),
        Err(Error::TypeMismatch(Operator::Call, Value::String("a".to_string()), None, at(0, 16)))
    );
    assert_eq!(
        eval("Sin(\"a\")"),
        Err(Error::TypeMismatch(Operator::Call, Value::String("a".to_string()), None, at(0, 8)))
    );
    assert_eq!(
        eval("Sin(Rand)"),
        Err(Error::TypeMismatch(Operator::Call, Value::Sound(Sound::Rand), None, at(0, 9)))
    );
    assert_eq!(
        eval("Rand(1, 2)"),
        Err(Error::TypeMismatch(Operator::Call, Value::Real(number(1.0)), None, at(0, 10)))
    );
    assert_eq!(
        eval("Rand(\"a\", \"b\")"),
        Err(Error::TypeMismatch(Operator::Call, Value::String("b".to_string()), None, at(0, 14)))
    );
}

#[test]
fn arithmetic_on_reals() {
    assert_eq!(scalar("1 + 2"), 3.0);
    assert_eq!(scalar("1 - 2"), -1.0);
    assert_eq!(scalar("3 * 4"), 12.0);
    assert_eq!(scalar("3 / 4"), 0.75);
    assert_eq!(scalar("2 ^ 10"), 1024.0);
    assert_eq!(scalar("-3"), -3.0);
    assert_eq!(scalar("/4"), 0.25);
    assert_eq!(scalar("+3"), 3.0);
    assert_eq!(scalar("1 + 2 * 3"), 7.0);
    assert_eq!(scalar("(1 + 2) * 3"), 9.0);
    assert_eq!(scalar("PI"), std::f64::consts::PI);
    assert_eq!(scalar("0.1 + 0.2"), 0.1 + 0.2);
}

#[test]
fn comparisons_of_reals() {
    assert_eq!(eval("1 < 2"), Ok(Value::Bool(true)));
    assert_eq!(eval("2 < 1"), Ok(Value::Bool(false)));
    assert_eq!(eval("1 < 1"), Ok(Value::Bool(false)));
    assert_eq!(eval("1 > 2"), Ok(Value::Bool(false)));
    assert_eq!(eval("2 > 1"), Ok(Value::Bool(true)));
    assert_eq!(eval("-1 < 0"), Ok(Value::Bool(true)));
    assert_eq!(eval("-1 > -2"), Ok(Value::Bool(true)));
}

#[test]
fn equality_of_reals_has_a_tolerance() {
    assert_eq!(eval("0.1 + 0.2 == 0.3"), Ok(Value::Bool(true)));
    assert_eq!(eval("1 == 1.0000005"), Ok(Value::Bool(true)));
    assert_eq!(eval("1 == 1.000002"), Ok(Value::Bool(false)));
    assert_eq!(eval("1 != 1.0000005"), Ok(Value::Bool(false)));
    assert_eq!(eval("1 != 1.000002"), Ok(Value::Bool(true)));
    assert_eq!(eval("0 / 0 == 0 / 0"), Ok(Value::Bool(false)));
    assert_eq!(eval("0 / 0 != 0 / 0"), Ok(Value::Bool(false)));
}

#[test]
fn equality_of_booleans_and_strings() {
    assert_eq!(eval("True == True"), Ok(Value::Bool(true)));
    assert_eq!(eval("True == False"), Ok(Value::Bool(false)));
    assert_eq!(eval("True != False"), Ok(Value::Bool(true)));
    assert_eq!(eval("\"a\" == \"a\""), Ok(Value::Bool(true)));
    assert_eq!(eval("\"a\" == \"b\""), Ok(Value::Bool(false)));
    assert_eq!(eval("\"a\" != \"b\""), Ok(Value::Bool(true)));
    assert_eq!(eval("\"a\" != \"a\""), Ok(Value::Bool(false)));
}

#[test]
fn strings_join_and_compare() {
    assert_eq!(eval("\"ab\" + \"cd\""), Ok(Value::String("abcd".to_string())));
    assert_eq!(eval("\"ab\" < \"b\""), Ok(Value::Bool(true)));
    assert_eq!(eval("\"ab\" > \"b\""), Ok(Value::Bool(false)));
    assert_eq!(eval("\"b\" > \"ab\""), Ok(Value::Bool(true)));
}

#[test]
fn compare_strings_is_the_order_of_the_standard_library() {
    let words = ["", "a", "ab", "abc", "abd", "b", "B", "野", "野家", "𠮷", "é", "z", "\u{ffff}", "\u{10000}"];
    for left in words {
        for right in words {
            assert_eq!(compare_strings(left, right), left < right, "{:?} {:?}", left, right);
        }
    }
}

#[test]
fn not_takes_a_boolean() {
    assert_eq!(eval("!True"), Ok(Value::Bool(false)));
    assert_eq!(eval("!False"), Ok(Value::Bool(true)));
    assert_eq!(
        eval("!1"),
        Err(Error::TypeMismatch(Operator::Unary(UnaryOperator::Not), Value::Real(number(1.0)), None, at(0, 2)))
    );
}

#[test]
fn minus_and_reciprocal_take_a_real_or_a_signal() {
    assert_eq!(
        eval("-True"),
        Err(Error::TypeMismatch(Operator::Unary(UnaryOperator::Minus), Value::Bool(true), None, at(0, 5)))
    );
    assert_eq!(
        eval("/\"a\""),
        Err(Error::TypeMismatch(
            Operator::Unary(UnaryOperator::Reciprocal),
            Value::String("a".to_string()),
            None,
            at(0, 4)
        ))
    );
}

#[test]
fn every_binary_operator_rejects_what_it_does_not_take() {
    for (text, operator) in [
        ("+", BinaryOperator::Add),
        ("-", BinaryOperator::Sub),
        ("*", BinaryOperator::Mul),
        ("/", BinaryOperator::Div),
        ("^", BinaryOperator::Pow),
        ("<", BinaryOperator::Less),
        (">", BinaryOperator::Greater),
        ("<<", BinaryOperator::LeftShift),
        (">>", BinaryOperator::RightShift),
        ("==", BinaryOperator::Equal),
        ("!=", BinaryOperator::NotEqual),
    ] {
        let source = format!("1 {} True", text);
        assert_eq!(
            eval(&source),
            Err(Error::TypeMismatch(
                Operator::Binary(operator),
                Value::Real(number(1.0)),
                Some(Value::Bool(true)),
                at(0, 7 + text.len())
            )),
            "{}",
            text
        );
    }
    assert_eq!(
        eval("\"a\" - \"b\""),
        Err(Error::TypeMismatch(
            Operator::Binary(BinaryOperator::Sub),
            Value::String("a".to_string()),
            Some(Value::String("b".to_string())),
            at(0, 9)
        ))
    );
    assert_eq!(
        eval("Rand < Rand"),
        Err(Error::TypeMismatch(
            Operator::Binary(BinaryOperator::Less),
            Value::Sound(Sound::Rand),
            Some(Value::Sound(Sound::Rand)),
            at(0, 11)
        ))
    );
}

#[test]
fn the_shift_operators_shift_a_signal() {
    assert_eq!(
        eval("Sin(2) >> 0.25"),
        Ok(Value::Sound(Sound::Sin {
            frequency: number(2.0),
            phase: number(std::f64::consts::TAU * 2.0 * 0.25 + 0.0)
        }))
    );
    assert_eq!(
        eval("Sin(2) << 0.25"),
        Ok(Value::Sound(Sound::Sin {
            frequency: number(2.0),
            phase: number(std::f64::consts::TAU * 2.0 * -0.25 + 0.0)
        }))
    );
}

#[test]
fn the_constructors_make_signals() {
    assert_eq!(eval("Sin(440)"), Ok(Value::Sound(oscillator(440.0))));
    assert_eq!(
        eval("Exp(0.5)"),
        Ok(Value::Sound(Sound::Exp { coefficient: number(-2.0), intercept: number(1.0) }))
    );
    assert_eq!(
        eval("Linear(1, 4)"),
        Ok(Value::Sound(Sound::Linear { slope: number(3.0), intercept: number(1.0) }))
    );
}

#[test]
fn an_unbound_name_is_an_error() {
    assert_eq!(eval("x"), Err(Error::UndefinedVariable("x".to_string(), at(0, 1))));
    assert_eq!(eval("1 + x"), Err(Error::UndefinedVariable("x".to_string(), at(4, 5))));
    assert_eq!(eval("$PI"), Err(Error::UndefinedVariable("$PI".to_string(), at(0, 3))));
}

#[test]
fn a_value_has_no_members() {
    assert_eq!(
        eval("PI.x"),
        Err(Error::TypeMismatch(Operator::Member, Value::Real(number(std::f64::consts::PI)), None, at(0, 4)))
    );
    assert_eq!(eval("y.x"), Err(Error::UndefinedVariable("y".to_string(), at(0, 1))));
}

#[test]
fn a_value_that_is_no_function_cannot_be_called() {
    assert_eq!(eval("PI(1)"), Err(Error::NotAFunction(at(0, 5))));
    assert_eq!(eval("True(undefined)"), Err(Error::NotAFunction(at(0, 15))));
    assert_eq!(eval("\"f\"()"), Err(Error::NotAFunction(at(0, 5))));
}

#[test]
fn an_empty_operand_is_an_error() {
    assert_eq!(eval("1 +"), Err(Error::EmptyExpression(at(0, 3))));
    assert_eq!(eval("* 2"), Ok(Value::Real(number(2.0))));
    assert_eq!(eval("-"), Err(Error::EmptyExpression(at(0, 1))));
    assert_eq!(eval("()"), Err(Error::EmptyExpression(at(0, 2))));
    assert_eq!(eval("()(1)"), Err(Error::EmptyExpression(at(0, 2))));
    assert_eq!(eval("True &&"), Err(Error::EmptyExpression(at(0, 7))));
}

#[test]
fn the_empty_expression_has_no_result() {
    assert_eq!(run("").0, None);
    let mut recordings = Vec::new();
    assert_eq!(Expression::empty().evaluate(&variables(), &arithmetic, &mut recordings), None);
}

#[test]
fn the_first_error_ends_the_evaluation() {
    assert_eq!(eval("x + y"), Err(Error::UndefinedVariable("x".to_string(), at(0, 1))));
    assert_eq!(eval("max(x, y)"), Err(Error::UndefinedVariable("x".to_string(), at(4, 5))));
    assert_eq!(eval("(!1) + x"), eval("!1").map_err(|error| match error {
        Error::TypeMismatch(operator, first, second, _) => Error::TypeMismatch(operator, first, second, at(1, 3)),
        other => other,
    }));
}

#[test]
fn empty_arguments_are_skipped() {
    assert_eq!(eval("max(1, , 2)"), Ok(Value::Real(number(2.0))));
}

#[test]
fn a_group_has_the_value_of_its_content() {
    assert_eq!(eval("(1)"), Ok(Value::Real(number(1.0))));
    assert_eq!(eval("((True))"), Ok(Value::Bool(true)));
}

#[test]
fn calling_a_signal_requests_a_recording() {
    let (result, recordings) = run("Sin(440)(\"a.wav\", 2)");
    assert_eq!(result, Some(Ok(Value::Bool(true))));
    assert_eq!(
        recordings,
        vec![Recording { sound: oscillator(440.0), filename: "a.wav".to_string(), seconds: number(2.0) }]
    );
}

#[test]
fn recordings_are_requested_in_the_order_of_evaluation() {
    let (result, recordings) = run("Rand(\"a\", 1) && Sin(2)(\"b\", 3) && x");
    assert_eq!(result, Some(Err(Error::UndefinedVariable("x".to_string(), at(34, 35)))));
    assert_eq!(
        recordings,
        vec![
            Recording { sound: Sound::Rand, filename: "a".to_string(), seconds: number(1.0) },
            Recording { sound: oscillator(2.0), filename: "b".to_string(), seconds: number(3.0) },
        ]
    );
}

#[test]
fn the_environment_is_read_by_name() {
    let mut variables = Environment::new();
    assert!(!variables.contains_key("x"));
    assert_eq!(variables.get("x"), None);
    variables.insert("x".to_string(), Value::Real(number(1.0)));
    variables.insert("x".to_string(), Value::Real(number(2.0)));
    assert!(variables.contains_key("x"));
    assert_eq!(variables.get("x"), Some(&Value::Real(number(2.0))));
}

#[test]
fn apply_unary_on_values() {
    let pos = at(0, 1);
    assert_eq!(
        apply_unary(UnaryOperator::Nop, Value::String("a".to_string()), pos, &arithmetic),
        Ok(Value::String("a".to_string()))
    );
    assert_eq!(
        apply_unary(UnaryOperator::Minus, Value::Real(number(0.0)), pos, &arithmetic),
        Ok(Value::Real(number(-0.0)))
    );
    assert_eq!(
        apply_unary(UnaryOperator::Reciprocal, Value::Real(number(0.0)), pos, &arithmetic),
        Ok(Value::Real(number(f64::INFINITY)))
    );
}

#[test]
fn apply_binary_on_values() {
    let pos = at(0, 1);
    assert_eq!(
        apply_binary(BinaryOperator::Pow, Value::Real(number(2.0)), Value::Real(number(0.5)), pos, &arithmetic),
        Ok(Value::Real(number(2.0f64.powf(0.5))))
    );
    assert_eq!(
        apply_binary(BinaryOperator::And, Value::Bool(true), Value::Bool(true), pos, &arithmetic),
        Err(Error::TypeMismatch(
            Operator::Binary(BinaryOperator::And),
            Value::Bool(true),
            Some(Value::Bool(true)),
            pos
        ))
    );
}

#[test]
fn a_slot_takes_a_value_of_its_type_only() {
    let mut slot = Argument::Real(number(0.0));
    assert_eq!(slot.set(Value::Real(number(2.0))), Ok(()));
    assert_eq!(slot, Argument::Real(number(2.0)));
    assert_eq!(slot.set(Value::Bool(true)), Err(("real", Value::Bool(true))));
    assert_eq!(slot, Argument::Real(number(2.0)));
    let mut slot = Argument::Boolean(false);
    assert_eq!(slot.set(Value::Bool(true)), Ok(()));
    assert_eq!(slot, Argument::Boolean(true));
    assert_eq!(slot.set(Value::Real(number(1.0))), Err(("boolean", Value::Real(number(1.0)))));
    let mut slot = Argument::Sound(Sound::Rand);
    assert_eq!(slot.set(Value::Sound(oscillator(1.0))), Ok(()));
    assert_eq!(slot, Argument::Sound(oscillator(1.0)));
    assert_eq!(slot.set(Value::Real(number(1.0))), Err(("Sound", Value::Real(number(1.0)))));
    let mut slot = Argument::String(String::new());
    assert_eq!(slot.set(Value::String("a".to_string())), Ok(()));
    assert_eq!(slot, Argument::String("a".to_string()));
    assert_eq!(slot.set(Value::Function(Function::Sin(Sin))), Err(("string", Value::Function(Function::Sin(Sin)))));
}

#[test]
fn functions_give_fresh_slots() {
    assert_eq!(
        Function::Sin(Sin).arguments(),
        Bindings { positional: vec![Argument::Real(number(0.0))], named: Vec::new() }
    );
    assert_eq!(
        Function::Linear(Linear).arguments(),
        Bindings {
            positional: vec![Argument::Real(number(0.0)), Argument::Real(number(0.0))],
            named: vec![("t1".to_string(), Argument::Real(number(1.0)))],
        }
    );
}

#[test]
fn a_ramp_reaches_its_second_value_at_the_named_time() {
    let function = Function::Linear(Linear);
    let mut bindings = function.arguments();
    bindings.positional[0].set(Value::Real(number(1.0))).unwrap();
    bindings.positional[1].set(Value::Real(number(4.0))).unwrap();
    bindings.named[0].1.set(Value::Real(number(2.0))).unwrap();
    assert_eq!(
        function.invoke(&bindings, &arithmetic),
        Value::Sound(Sound::Linear { slope: number(1.5), intercept: number(1.0) })
    );
}

#[test]
fn real_functions_are_applied_through_the_service() {
    assert_eq!(sin().arity(), 1);
    assert_eq!(max().arity(), 2);
    assert_eq!(float(sin().apply(&vec![number(0.5)], &arithmetic)), 0.5f64.sin());
    assert_eq!(float(max().apply(&vec![number(0.5), number(2.0)], &arithmetic)), 2.0);
    let pow = RealFunction::Binary(PrimitiveRealFunction2(BinaryFunction::Pow));
    assert_eq!(float(pow.apply(&vec![number(2.0), number(3.0)], &arithmetic)), 8.0);
}

#[test]
fn an_expression_tells_its_place_and_its_name() {
    let expression = Expression::new(at(2, 3), Node::Identifier("x".to_string(), true));
    assert!(!expression.is_empty());
    assert_eq!(expression.pos(), Some(at(2, 3)));
    assert_eq!(expression.try_into_identifier(), Some(("x".to_string(), true)));
    assert!(Expression::empty().is_empty());
    assert_eq!(Expression::empty().pos(), None);
    assert_eq!(Expression::empty().try_into_identifier(), None);
    assert_eq!(Expression::new(at(0, 1), Node::Number(number(1.0))).try_into_identifier(), None);
}
