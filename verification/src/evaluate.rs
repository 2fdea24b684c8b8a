//! The evaluator: what an expression evaluates to, and the operators on
//! values.

use vstd::prelude::*;
use vstd::string::*;
use crate::ast::{BinaryOperator, Expression, ExpressionView, Node, NodeView, PosNode, PosNodeView, UnaryOperator};
use crate::environment::Environment;
use crate::error::{Error, ErrorView, Operator};
use crate::function::{ArgumentView, BindingsView, Function, RealFunction};
use crate::lexer::characters;
use crate::number::{answers, binary, serves_all, BinaryFunction, Operation, Real, ONE_BITS, TOLERANCE_BITS};
use crate::pos::Pos;
use crate::sound::shifted;
use crate::value::{Sound, SoundView, Value, ValueView};

verus! {

/// A request to render a signal into a file: made by calling a signal with
/// the name of the file and the duration in seconds.
#[derive(Debug, PartialEq)]
pub struct Recording {
    pub sound: Sound,
    pub filename: String,
    pub seconds: Real,
}

/// What a [`Recording`] holds, with sequences in place of strings and
/// vectors.
pub struct RecordingView {
    pub sound: SoundView,
    pub filename: Seq<char>,
    pub seconds: Real,
}

impl Recording {
    pub open spec fn view(&self) -> RecordingView {
        RecordingView { sound: self.sound@, filename: self.filename@, seconds: self.seconds }
    }
}

/// The list of recordings, each by what it holds.
pub open spec fn recordings_view(recordings: Seq<Recording>) -> Seq<RecordingView> {
    Seq::new(recordings.len(), |i: int| recordings[i]@)
}

/// The result of evaluating an expression, by what it holds. The empty
/// expression has no result.
pub open spec fn evaluated_view(result: Option<Result<Value, Error>>) -> Option<Result<ValueView, ErrorView>> {
    match result {
        Some(result) => Some(result_view(result)),
        None => None,
    }
}

/// The result of evaluating a node, by what it holds.
pub open spec fn result_view(result: Result<Value, Error>) -> Result<ValueView, ErrorView> {
    match result {
        Ok(value) => Ok(value@),
        Err(error) => Err(error@),
    }
}

/// What an evaluation leaves: its result, and the recordings requested up
/// to its end.
pub struct Evaluation {
    pub value: Option<Result<ValueView, ErrorView>>,
    pub recordings: Seq<RecordingView>,
}

/// The result of an operand that is needed: the empty expression is an
/// error at the place of the operator.
pub open spec fn forced(value: Option<Result<ValueView, ErrorView>>, pos: Pos) -> Result<ValueView, ErrorView> {
    match value {
        Some(result) => result,
        None => Err(ErrorView::EmptyExpression(pos)),
    }
}

/// The strict order of strings: by the first character in which they
/// differ, a proper prefix being less.
pub open spec fn string_less(left: Seq<char>, right: Seq<char>) -> bool
    decreases left.len(),
{
    if right.len() == 0 {
        false
    } else if left.len() == 0 {
        true
    } else if left[0] != right[0] {
        (left[0] as u32) < (right[0] as u32)
    } else {
        string_less(left.drop_first(), right.drop_first())
    }
}

/// The combinator signal of an arithmetic operator.
pub open spec fn combinator(function: BinaryFunction, left: SoundView, right: SoundView) -> SoundView {
    match function {
        BinaryFunction::Add => SoundView::Add(Box::new(left), Box::new(right)),
        BinaryFunction::Sub => SoundView::Sub(Box::new(left), Box::new(right)),
        BinaryFunction::Mul => SoundView::Mul(Box::new(left), Box::new(right)),
        BinaryFunction::Div => SoundView::Div(Box::new(left), Box::new(right)),
        _ => SoundView::Pow(Box::new(left), Box::new(right)),
    }
}

/// The arithmetic function of an operator, for the five arithmetic ones.
pub open spec fn arithmetic(operator: BinaryOperator) -> Option<BinaryFunction> {
    match operator {
        BinaryOperator::Add => Some(BinaryFunction::Add),
        BinaryOperator::Sub => Some(BinaryFunction::Sub),
        BinaryOperator::Mul => Some(BinaryFunction::Mul),
        BinaryOperator::Div => Some(BinaryFunction::Div),
        BinaryOperator::Pow => Some(BinaryFunction::Pow),
        _ => None,
    }
}

/// `out` is a possible result of a unary operator on a value.
///
/// Minus and reciprocal take a real or a signal, and of a signal they make
/// the combinator; negation takes a boolean.
pub open spec fn applies_unary<F: Fn(Operation) -> Real>(
    operator: UnaryOperator,
    value: ValueView,
    pos: Pos,
    ops: &F,
    out: Result<ValueView, ErrorView>,
) -> bool {
    let mismatch = Err::<ValueView, ErrorView>(
        ErrorView::TypeMismatch(Operator::Unary(operator), value, None, pos),
    );
    match operator {
        UnaryOperator::Nop => out == Ok::<ValueView, ErrorView>(value),
        UnaryOperator::Minus => match value {
            ValueView::Real(x) => out == Ok::<ValueView, ErrorView>(ValueView::Real(x.negated())),
            ValueView::Sound(sound) => out == Ok::<ValueView, ErrorView>(
                ValueView::Sound(SoundView::Minus(Box::new(sound))),
            ),
            _ => out == mismatch,
        },
        UnaryOperator::Reciprocal => match value {
            ValueView::Real(x) => out matches Ok(ValueView::Real(y)) && answers(
                ops,
                Operation::Binary(BinaryFunction::Div, Real::of_bits(ONE_BITS), x),
                y,
            ),
            ValueView::Sound(sound) => out == Ok::<ValueView, ErrorView>(
                ValueView::Sound(SoundView::Reciprocal(Box::new(sound))),
            ),
            _ => out == mismatch,
        },
        UnaryOperator::Not => match value {
            ValueView::Bool(b) => out == Ok::<ValueView, ErrorView>(ValueView::Bool(!b)),
            _ => out == mismatch,
        },
    }
}

/// `out` is a possible result of comparing two reals for equality: their
/// difference is taken, and its absolute value is held against the
/// tolerance.
pub open spec fn close<F: Fn(Operation) -> Real>(ops: &F, left: Real, right: Real, out: bool) -> bool {
    exists|difference: Real|
        #[trigger] answers(ops, Operation::Binary(BinaryFunction::Sub, left, right), difference) && out
            == difference.absolute().less_or_equal(Real::of_bits(TOLERANCE_BITS))
}

/// `out` is a possible result of comparing two reals for inequality.
pub open spec fn apart<F: Fn(Operation) -> Real>(ops: &F, left: Real, right: Real, out: bool) -> bool {
    exists|difference: Real|
        #[trigger] answers(ops, Operation::Binary(BinaryFunction::Sub, left, right), difference) && out
            == Real::of_bits(TOLERANCE_BITS).less(difference.absolute())
}

/// `out` is a possible result of a binary operator, other than the two
/// short-circuit ones, on two values.
///
/// An arithmetic operator computes on two reals and builds a combinator as
/// soon as one operand is a signal, a real operand becoming a constant
/// signal; addition also joins two strings. The comparisons take two reals
/// or two strings, the equalities also two booleans. The shifts take a
/// signal and a real: the left one shifts by the negated real.
pub open spec fn applies_binary<F: Fn(Operation) -> Real>(
    operator: BinaryOperator,
    left: ValueView,
    right: ValueView,
    pos: Pos,
    ops: &F,
    out: Result<ValueView, ErrorView>,
) -> bool {
    let mismatch = Err::<ValueView, ErrorView>(
        ErrorView::TypeMismatch(Operator::Binary(operator), left, Some(right), pos),
    );
    match operator {
        BinaryOperator::Add | BinaryOperator::Sub | BinaryOperator::Mul | BinaryOperator::Div | BinaryOperator::Pow => {
            let function = arithmetic(operator)->Some_0;
            match (left, right) {
                (ValueView::Real(x), ValueView::Real(y)) => out matches Ok(ValueView::Real(z)) && answers(
                    ops,
                    Operation::Binary(function, x, y),
                    z,
                ),
                (ValueView::Real(x), ValueView::Sound(sound)) => out == Ok::<ValueView, ErrorView>(
                    ValueView::Sound(combinator(function, SoundView::Const(x), sound)),
                ),
                (ValueView::Sound(sound), ValueView::Real(y)) => out == Ok::<ValueView, ErrorView>(
                    ValueView::Sound(combinator(function, sound, SoundView::Const(y))),
                ),
                (ValueView::Sound(first), ValueView::Sound(second)) => out == Ok::<ValueView, ErrorView>(
                    ValueView::Sound(combinator(function, first, second)),
                ),
                (ValueView::String(first), ValueView::String(second)) => if operator == BinaryOperator::Add {
                    out == Ok::<ValueView, ErrorView>(ValueView::String(first + second))
                } else {
                    out == mismatch
                },
                _ => out == mismatch,
            }
        },
        BinaryOperator::Less => match (left, right) {
            (ValueView::Real(x), ValueView::Real(y)) => out == Ok::<ValueView, ErrorView>(ValueView::Bool(x.less(y))),
            (ValueView::String(first), ValueView::String(second)) => out == Ok::<ValueView, ErrorView>(
                ValueView::Bool(string_less(first, second)),
            ),
            _ => out == mismatch,
        },
        BinaryOperator::Greater => match (left, right) {
            (ValueView::Real(x), ValueView::Real(y)) => out == Ok::<ValueView, ErrorView>(ValueView::Bool(y.less(x))),
            (ValueView::String(first), ValueView::String(second)) => out == Ok::<ValueView, ErrorView>(
                ValueView::Bool(string_less(second, first)),
            ),
            _ => out == mismatch,
        },
        BinaryOperator::LeftShift => match (left, right) {
            (ValueView::Sound(sound), ValueView::Real(t)) => out matches Ok(ValueView::Sound(moved)) && shifted(
                sound,
                t.negated(),
                ops,
                moved,
            ),
            _ => out == mismatch,
        },
        BinaryOperator::RightShift => match (left, right) {
            (ValueView::Sound(sound), ValueView::Real(t)) => out matches Ok(ValueView::Sound(moved)) && shifted(
                sound,
                t,
                ops,
                moved,
            ),
            _ => out == mismatch,
        },
        BinaryOperator::Equal => match (left, right) {
            (ValueView::Real(x), ValueView::Real(y)) => out matches Ok(ValueView::Bool(b)) && close(ops, x, y, b),
            (ValueView::Bool(x), ValueView::Bool(y)) => out == Ok::<ValueView, ErrorView>(ValueView::Bool(x == y)),
            (ValueView::String(first), ValueView::String(second)) => out == Ok::<ValueView, ErrorView>(
                ValueView::Bool(first == second),
            ),
            _ => out == mismatch,
        },
        BinaryOperator::NotEqual => match (left, right) {
            (ValueView::Real(x), ValueView::Real(y)) => out matches Ok(ValueView::Bool(b)) && apart(ops, x, y, b),
            (ValueView::Bool(x), ValueView::Bool(y)) => out == Ok::<ValueView, ErrorView>(ValueView::Bool(x != y)),
            (ValueView::String(first), ValueView::String(second)) => out == Ok::<ValueView, ErrorView>(
                ValueView::Bool(first != second),
            ),
            _ => out == mismatch,
        },
        // The short-circuit operators decide on their left operand before
        // the right one is evaluated: see `node_evaluates`.
        BinaryOperator::And | BinaryOperator::Or => out == mismatch,
    }
}

/// Compares two strings, character by character.
pub fn compare_strings(left: &str, right: &str) -> (result: bool)
    ensures
        result == string_less(left@, right@),
{
    let first = characters(left);
    let second = characters(right);
    let mut i: usize = 0;
    assert(left@.skip(0) =~= left@ && right@.skip(0) =~= right@);
    while i < first.len() && i < second.len()
        invariant
            first@ == left@,
            second@ == right@,
            i <= first.len(),
            i <= second.len(),
            string_less(left@, right@) == string_less(left@.skip(i as int), right@.skip(i as int)),
        decreases first.len() - i,
    {
        let a = first[i];
        let b = second[i];
        proof {
            assert(left@.skip(i as int)[0] == a);
            assert(right@.skip(i as int)[0] == b);
            assert(left@.skip(i as int).drop_first() =~= left@.skip(i + 1));
            assert(right@.skip(i as int).drop_first() =~= right@.skip(i + 1));
        }
        if a != b {
            return (a as u32) < (b as u32);
        }
        i += 1;
    }
    i < second.len()
}

/// The combinator signal of an arithmetic function on two signals.
fn combine(function: BinaryFunction, left: Sound, right: Sound) -> (result: Sound)
    ensures
        result@ == combinator(function, left@, right@),
{
    match function {
        BinaryFunction::Add => Sound::Add(Box::new(left), Box::new(right)),
        BinaryFunction::Sub => Sound::Sub(Box::new(left), Box::new(right)),
        BinaryFunction::Mul => Sound::Mul(Box::new(left), Box::new(right)),
        BinaryFunction::Div => Sound::Div(Box::new(left), Box::new(right)),
        _ => Sound::Pow(Box::new(left), Box::new(right)),
    }
}

/// Applies a unary operator to the value of its operand.
pub fn apply_unary<F: Fn(Operation) -> Real>(operator: UnaryOperator, value: Value, pos: Pos, ops: &F) -> (result:
    Result<Value, Error>)
    requires
        serves_all(ops),
    ensures
        applies_unary(operator, value@, pos, ops, result_view(result)),
{
    match operator {
        UnaryOperator::Nop => Ok(value),
        UnaryOperator::Minus => match value {
            Value::Real(x) => Ok(Value::Real(x.negate())),
            Value::Sound(sound) => Ok(Value::Sound(Sound::Minus(Box::new(sound)))),
            other => Err(Error::TypeMismatch(Operator::Unary(operator), other, None, pos)),
        },
        UnaryOperator::Reciprocal => match value {
            Value::Real(x) => Ok(Value::Real(binary(ops, BinaryFunction::Div, Real::one(), x))),
            Value::Sound(sound) => Ok(Value::Sound(Sound::Reciprocal(Box::new(sound)))),
            other => Err(Error::TypeMismatch(Operator::Unary(operator), other, None, pos)),
        },
        UnaryOperator::Not => match value {
            Value::Bool(b) => Ok(Value::Bool(!b)),
            other => Err(Error::TypeMismatch(Operator::Unary(operator), other, None, pos)),
        },
    }
}

/// Applies an arithmetic operator to the values of its operands.
fn apply_arithmetic<F: Fn(Operation) -> Real>(
    operator: BinaryOperator,
    function: BinaryFunction,
    left: Value,
    right: Value,
    pos: Pos,
    ops: &F,
) -> (result: Result<Value, Error>)
    requires
        serves_all(ops),
        arithmetic(operator) == Some(function),
    ensures
        applies_binary(operator, left@, right@, pos, ops, result_view(result)),
{
    match (left, right) {
        (Value::Real(x), Value::Real(y)) => Ok(Value::Real(binary(ops, function, x, y))),
        (Value::Real(x), Value::Sound(sound)) => Ok(Value::Sound(combine(function, Sound::Const(x), sound))),
        (Value::Sound(sound), Value::Real(y)) => Ok(Value::Sound(combine(function, sound, Sound::Const(y)))),
        (Value::Sound(first), Value::Sound(second)) => Ok(Value::Sound(combine(function, first, second))),
        (Value::String(first), Value::String(second)) => match operator {
            BinaryOperator::Add => Ok(Value::String(first.concat(second.as_str()))),
            _ => Err(
                Error::TypeMismatch(
                    Operator::Binary(operator),
                    Value::String(first),
                    Some(Value::String(second)),
                    pos,
                ),
            ),
        },
        (left, right) => Err(Error::TypeMismatch(Operator::Binary(operator), left, Some(right), pos)),
    }
}

/// Applies a binary operator to the values of its operands.
pub fn apply_binary<F: Fn(Operation) -> Real>(
    operator: BinaryOperator,
    left: Value,
    right: Value,
    pos: Pos,
    ops: &F,
) -> (result: Result<Value, Error>)
    requires
        serves_all(ops),
    ensures
        applies_binary(operator, left@, right@, pos, ops, result_view(result)),
{
    match operator {
        BinaryOperator::Add => apply_arithmetic(operator, BinaryFunction::Add, left, right, pos, ops),
        BinaryOperator::Sub => apply_arithmetic(operator, BinaryFunction::Sub, left, right, pos, ops),
        BinaryOperator::Mul => apply_arithmetic(operator, BinaryFunction::Mul, left, right, pos, ops),
        BinaryOperator::Div => apply_arithmetic(operator, BinaryFunction::Div, left, right, pos, ops),
        BinaryOperator::Pow => apply_arithmetic(operator, BinaryFunction::Pow, left, right, pos, ops),
        BinaryOperator::Less => match (left, right) {
            (Value::Real(x), Value::Real(y)) => Ok(Value::Bool(x.less_than(y))),
            (Value::String(first), Value::String(second)) => Ok(
                Value::Bool(compare_strings(first.as_str(), second.as_str())),
            ),
            (left, right) => Err(Error::TypeMismatch(Operator::Binary(operator), left, Some(right), pos)),
        },
        BinaryOperator::Greater => match (left, right) {
            (Value::Real(x), Value::Real(y)) => Ok(Value::Bool(x.greater_than(y))),
            (Value::String(first), Value::String(second)) => Ok(
                Value::Bool(compare_strings(second.as_str(), first.as_str())),
            ),
            (left, right) => Err(Error::TypeMismatch(Operator::Binary(operator), left, Some(right), pos)),
        },
        BinaryOperator::LeftShift => match (left, right) {
            (Value::Sound(sound), Value::Real(t)) => Ok(Value::Sound(sound.shift(t.negate(), ops))),
            (left, right) => Err(Error::TypeMismatch(Operator::Binary(operator), left, Some(right), pos)),
        },
        BinaryOperator::RightShift => match (left, right) {
            (Value::Sound(sound), Value::Real(t)) => Ok(Value::Sound(sound.shift(t, ops))),
            (left, right) => Err(Error::TypeMismatch(Operator::Binary(operator), left, Some(right), pos)),
        },
        BinaryOperator::Equal => match (left, right) {
            (Value::Real(x), Value::Real(y)) => {
                let difference = binary(ops, BinaryFunction::Sub, x, y);
                Ok(Value::Bool(difference.abs().at_most(Real::tolerance())))
            },
            (Value::Bool(x), Value::Bool(y)) => Ok(Value::Bool(x == y)),
            (Value::String(first), Value::String(second)) => Ok(Value::Bool(first == second)),
            (left, right) => Err(Error::TypeMismatch(Operator::Binary(operator), left, Some(right), pos)),
        },
        BinaryOperator::NotEqual => match (left, right) {
            (Value::Real(x), Value::Real(y)) => {
                let difference = binary(ops, BinaryFunction::Sub, x, y);
                Ok(Value::Bool(Real::tolerance().less_than(difference.abs())))
            },
            (Value::Bool(x), Value::Bool(y)) => Ok(Value::Bool(x != y)),
            (Value::String(first), Value::String(second)) => Ok(Value::Bool(first != second)),
            (left, right) => Err(Error::TypeMismatch(Operator::Binary(operator), left, Some(right), pos)),
        },
        BinaryOperator::And | BinaryOperator::Or => Err(
            Error::TypeMismatch(Operator::Binary(operator), left, Some(right), pos),
        ),
    }
}

/// The values, each by what it holds.
pub open spec fn values_view(values: Seq<Value>) -> Seq<ValueView> {
    Seq::new(values.len(), |i: int| values[i]@)
}

/// The first place at or after `from` whose slot does not take its value;
/// the number of values if every slot takes its value.
pub open spec fn first_misfit(slots: Seq<ArgumentView>, values: Seq<ValueView>, from: int) -> int
    decreases values.len() - from,
{
    if from < 0 || from >= values.len() || from >= slots.len() {
        values.len() as int
    } else if !slots[from].takes(values[from]) {
        from
    } else {
        first_misfit(slots, values, from + 1)
    }
}

/// The slots after each positional one has taken its value.
pub open spec fn bound(slots: BindingsView, values: Seq<ValueView>) -> BindingsView {
    BindingsView {
        positional: Seq::new(slots.positional.len(), |i: int| slots.positional[i].filled(values[i])),
        named: slots.named,
    }
}

/// The first place at or after `from` whose value is neither a real nor a
/// signal; the number of values if there is none.
pub open spec fn first_stray(values: Seq<ValueView>, from: int) -> int
    decreases values.len() - from,
{
    if from < 0 || from >= values.len() {
        values.len() as int
    } else if !(values[from] is Real || values[from] is Sound) {
        from
    } else {
        first_stray(values, from + 1)
    }
}

/// One of the values is a signal.
pub open spec fn any_signal(values: Seq<ValueView>) -> bool {
    exists|i: int| 0 <= i < values.len() && #[trigger] values[i] is Sound
}

/// The numbers that the values hold, where all of them are reals.
pub open spec fn reals(values: Seq<ValueView>) -> Seq<Real> {
    Seq::new(values.len(), |i: int| values[i]->Real_0)
}

/// A value that can be called.
pub open spec fn callable(value: ValueView) -> bool {
    value is Function || value is RealFunction || value is Sound
}

/// `out` is a possible outcome of calling `callee` with the values of its
/// arguments, `before` being the recordings requested so far.
///
/// The number of arguments must be the number of parameters; if not, the
/// call is an arity error. The first argument of a wrong type is a type
/// error. A function is then applied to its arguments. A real function is
/// applied at once where all its arguments are reals, and becomes a function
/// signal over all its arguments as soon as one of them is a signal. A
/// signal called with a file name and a duration requests a recording and
/// gives `true`.
pub open spec fn called<F: Fn(Operation) -> Real>(
    callee: ValueView,
    values: Seq<ValueView>,
    pos: Pos,
    ops: &F,
    before: Seq<RecordingView>,
    out: Evaluation,
) -> bool {
    match callee {
        ValueView::Function(function) => {
            let slots = function.slots();
            let misfit = first_misfit(slots.positional, values, 0);
            &&& out.recordings == before
            &&& if slots.positional.len() != values.len() {
                out.value == Some(
                    Err::<ValueView, ErrorView>(
                        ErrorView::ArityMismatch(slots.positional.len() as usize, values.len() as usize, pos),
                    ),
                )
            } else if misfit < values.len() {
                out.value == Some(
                    Err::<ValueView, ErrorView>(ErrorView::TypeMismatch(Operator::Call, values[misfit], None, pos)),
                )
            } else {
                out.value matches Some(Ok(value)) && function.invoked(bound(slots, values), ops, value)
            }
        },
        ValueView::RealFunction(function) => {
            let stray = first_stray(values, 0);
            &&& out.recordings == before
            &&& if function.arity_spec() != values.len() {
                out.value == Some(
                    Err::<ValueView, ErrorView>(
                        ErrorView::ArityMismatch(function.arity_spec() as usize, values.len() as usize, pos),
                    ),
                )
            } else if stray < values.len() {
                out.value == Some(
                    Err::<ValueView, ErrorView>(ErrorView::TypeMismatch(Operator::Call, values[stray], None, pos)),
                )
            } else if any_signal(values) {
                out.value == Some(
                    Ok::<ValueView, ErrorView>(ValueView::Sound(SoundView::Function(function, values, seq![]))),
                )
            } else {
                out.value matches Some(Ok(ValueView::Real(x))) && answers(ops, function.request(reals(values)), x)
            }
        },
        ValueView::Sound(sound) => {
            if values.len() != 2 {
                out.recordings == before && out.value == Some(
                    Err::<ValueView, ErrorView>(ErrorView::ArityMismatch(2, values.len() as usize, pos)),
                )
            } else if !(values[0] is String) {
                out.recordings == before && out.value == Some(
                    Err::<ValueView, ErrorView>(ErrorView::TypeMismatch(Operator::Call, values[0], None, pos)),
                )
            } else if !(values[1] is Real) {
                out.recordings == before && out.value == Some(
                    Err::<ValueView, ErrorView>(ErrorView::TypeMismatch(Operator::Call, values[1], None, pos)),
                )
            } else {
                out.recordings == before.push(
                    RecordingView { sound, filename: values[0]->String_0, seconds: values[1]->Real_0 },
                ) && out.value == Some(Ok::<ValueView, ErrorView>(ValueView::Bool(true)))
            }
        },
        _ => out.recordings == before && out.value == Some(
            Err::<ValueView, ErrorView>(ErrorView::NotAFunction(pos)),
        ),
    }
}

/// Where every slot before `to` takes its value, the first misfit from
/// `from` on is the first misfit from `to` on.
pub proof fn lemma_first_misfit_skips(slots: Seq<ArgumentView>, values: Seq<ValueView>, from: int, to: int)
    requires
        0 <= from <= to <= values.len(),
        to <= slots.len(),
        forall|k: int| from <= k < to ==> (#[trigger] slots[k]).takes(values[k]),
    ensures
        first_misfit(slots, values, from) == first_misfit(slots, values, to),
    decreases to - from,
{
    if from < to {
        lemma_first_misfit_skips(slots, values, from + 1, to);
    }
}

/// Where every value before `to` is a real or a signal, the first stray
/// value from `from` on is the first one from `to` on.
pub proof fn lemma_first_stray_skips(values: Seq<ValueView>, from: int, to: int)
    requires
        0 <= from <= to <= values.len(),
        forall|k: int| from <= k < to ==> (#[trigger] values[k]) is Real || values[k] is Sound,
    ensures
        first_stray(values, from) == first_stray(values, to),
    decreases to - from,
{
    if from < to {
        lemma_first_stray_skips(values, from + 1, to);
    }
}

/// Calls a function with the values of its arguments.
fn call_function<F: Fn(Operation) -> Real>(function: Function, arguments: Vec<Value>, pos: Pos, ops: &F) -> (result:
    Result<Value, Error>)
    requires
        serves_all(ops),
    ensures
        called(
            ValueView::Function(function),
            values_view(arguments@),
            pos,
            ops,
            seq![],
            Evaluation { value: Some(result_view(result)), recordings: seq![] },
        ),
{
    let ghost values = values_view(arguments@);
    let ghost slots = function.slots();
    let mut bindings = function.arguments();
    let expected = bindings.positional.len();
    if expected != arguments.len() {
        return Err(Error::ArityMismatch(expected, arguments.len(), pos));
    }
    let ghost given = arguments@;
    let mut i: usize = 0;
    for value in it: arguments
        invariant
            it.seq() == given,
            values == values_view(given),
            slots == function.slots(),
            i == it.index(),
            bindings.positional.len() == given.len(),
            bindings.positional.len() == slots.positional.len(),
            bindings@.named == slots.named,
            forall|k: int| 0 <= k < i ==> (#[trigger] slots.positional[k]).takes(values[k]),
            forall|k: int|
                0 <= k < i ==> (#[trigger] bindings.positional[k])@ == slots.positional[k].filled(values[k]),
            forall|k: int| i <= k < given.len() ==> (#[trigger] bindings.positional[k])@ == slots.positional[k],
    {
        assert(values[i as int] == value@);
        match bindings.positional[i].set(value) {
            Ok(()) => {},
            Err(pair) => {
                proof {
                    lemma_first_misfit_skips(slots.positional, values, 0, i as int);
                }
                return Err(Error::TypeMismatch(Operator::Call, pair.1, None, pos));
            },
        }
        i += 1;
    }
    proof {
        lemma_first_misfit_skips(slots.positional, values, 0, values.len() as int);
        assert(bindings@.positional =~= bound(slots, values).positional);
        assert(bindings@ == bound(slots, values));
        assert forall|k: int| 0 <= k < slots.positional.len() implies (#[trigger] bindings@.positional[k]) is Real by {
            assert(slots.positional[k].takes(values[k]));
        }
    }
    Ok(function.invoke(&bindings, ops))
}

/// Calls a real function with the values of its arguments.
fn call_real_function<F: Fn(Operation) -> Real>(
    function: RealFunction,
    arguments: Vec<Value>,
    pos: Pos,
    ops: &F,
) -> (result: Result<Value, Error>)
    requires
        serves_all(ops),
    ensures
        called(
            ValueView::RealFunction(function),
            values_view(arguments@),
            pos,
            ops,
            seq![],
            Evaluation { value: Some(result_view(result)), recordings: seq![] },
        ),
{
    let ghost values = values_view(arguments@);
    let arity = function.arity();
    if arity != arguments.len() {
        return Err(Error::ArityMismatch(arity, arguments.len(), pos));
    }
    let mut numbers: Vec<Real> = Vec::new();
    let mut signal = false;
    let mut stray: Option<usize> = None;
    let mut i: usize = 0;
    while i < arguments.len() && stray.is_none()
        invariant
            i <= arguments.len(),
            values == values_view(arguments@),
            stray matches Some(place) ==> place < arguments.len() && first_stray(values, 0) == place,
            stray is None ==> forall|k: int| 0 <= k < i ==> (#[trigger] values[k]) is Real || values[k] is Sound,
            stray is None ==> signal == any_signal(values.take(i as int)),
            stray is None && !signal ==> numbers@ =~= reals(values.take(i as int)),
        decreases arguments.len() - i + (if stray is None { 1nat } else { 0nat }),
    {
        assert(values[i as int] == arguments[i as int]@);
        assert(values.take(i + 1).take(i as int) =~= values.take(i as int));
        match &arguments[i] {
            Value::Real(x) => {
                if !signal {
                    numbers.push(*x);
                }
                proof {
                    if any_signal(values.take(i + 1)) {
                        let w = choose|w: int| 0 <= w < values.take(i + 1).len() && #[trigger] values.take(i + 1)[w] is Sound;
                        assert(values.take(i as int)[w] is Sound);
                    }
                    if signal {
                        let w = choose|w: int| 0 <= w < values.take(i as int).len() && #[trigger] values.take(i as int)[w] is Sound;
                        assert(values.take(i + 1)[w] is Sound);
                    }
                }
                i += 1;
            },
            Value::Sound(_) => {
                signal = true;
                assert(values.take(i + 1)[i as int] is Sound);
                i += 1;
            },
            _ => {
                proof {
                    lemma_first_stray_skips(values, 0, i as int);
                }
                stray = Some(i);
            },
        }
    }
    match stray {
        Some(place) => {
            let mut arguments = arguments;
            let value = arguments.swap_remove(place);
            Err(Error::TypeMismatch(Operator::Call, value, None, pos))
        },
        None => {
            proof {
                lemma_first_stray_skips(values, 0, values.len() as int);
                assert(values.take(values.len() as int) =~= values);
            }
            if signal {
                let result = Sound::Function(function, arguments, Vec::new());
                assert(result@->Function_1 =~= values);
                assert(result@->Function_2 =~= Seq::<(Seq<char>, ValueView)>::empty());
                Ok(Value::Sound(result))
            } else {
                Ok(Value::Real(function.apply(&numbers, ops)))
            }
        },
    }
}

/// Calls a signal: requests a recording of it.
fn call_sound<F: Fn(Operation) -> Real>(
    sound: Sound,
    arguments: Vec<Value>,
    pos: Pos,
    ops: &F,
    recordings: &mut Vec<Recording>,
) -> (result: Result<Value, Error>)
    ensures
        called(
            ValueView::Sound(sound@),
            values_view(arguments@),
            pos,
            ops,
            recordings_view(old(recordings)@),
            Evaluation { value: Some(result_view(result)), recordings: recordings_view(final(recordings)@) },
        ),
{
    let mut arguments = arguments;
    let ghost values = values_view(arguments@);
    if arguments.len() != 2 {
        return Err(Error::ArityMismatch(2, arguments.len(), pos));
    }
    assert(values[0] == arguments[0]@ && values[1] == arguments[1]@);
    let second = arguments.pop().unwrap();
    let first = arguments.pop().unwrap();
    match first {
        Value::String(filename) => match second {
            Value::Real(seconds) => {
                let recording = Recording { sound, filename, seconds };
                recordings.push(recording);
                assert(recordings_view(recordings@) =~= recordings_view(old(recordings)@).push(recording@));
                Ok(Value::Bool(true))
            },
            other => Err(Error::TypeMismatch(Operator::Call, other, None, pos)),
        },
        other => Err(Error::TypeMismatch(Operator::Call, other, None, pos)),
    }
}

/// What the evaluation of a list of arguments leaves: the values of the
/// arguments that are not empty, or the first error, and the recordings
/// requested up to its end.
pub struct ArgumentsEvaluation {
    pub values: Result<Seq<ValueView>, ErrorView>,
    pub recordings: Seq<RecordingView>,
}

/// The evaluation of a list of arguments after one more argument: nothing
/// changes after an error; an empty argument is skipped; an error ends the
/// list; a value joins the values.
pub open spec fn extended(so_far: ArgumentsEvaluation, item: Evaluation) -> ArgumentsEvaluation {
    match so_far.values {
        Err(_) => so_far,
        Ok(values) => ArgumentsEvaluation {
            values: match item.value {
                None => Ok(values),
                Some(Err(error)) => Err(error),
                Some(Ok(value)) => Ok(values.push(value)),
            },
            recordings: item.recordings,
        },
    }
}

/// `out` is a possible outcome of evaluating the expression, `before` being
/// the recordings requested so far. The empty expression has no result.
pub open spec fn evaluates<F: Fn(Operation) -> Real>(
    expression: ExpressionView,
    variables: Map<Seq<char>, ValueView>,
    ops: &F,
    before: Seq<RecordingView>,
    out: Evaluation,
) -> bool
    decreases expression,
{
    match expression.0 {
        None => out.value is None && out.recordings == before,
        Some(node) => out.value is Some && node_evaluates(node, variables, ops, before, out),
    }
}

/// `out` is a possible outcome of evaluating the first `n` of the arguments
/// of a call, from left to right.
pub open spec fn arguments_evaluate<F: Fn(Operation) -> Real>(
    arguments: Seq<ExpressionView>,
    variables: Map<Seq<char>, ValueView>,
    ops: &F,
    before: Seq<RecordingView>,
    n: nat,
    out: ArgumentsEvaluation,
) -> bool
    decreases arguments, n,
{
    if n == 0 || n > arguments.len() {
        out == (ArgumentsEvaluation { values: Ok(seq![]), recordings: before })
    } else {
        exists|so_far: ArgumentsEvaluation, item: Evaluation|
            #![trigger extended(so_far, item)]
            {
                &&& arguments_evaluate(arguments, variables, ops, before, (n - 1) as nat, so_far)
                &&& so_far.values is Ok ==> evaluates(arguments[n - 1], variables, ops, so_far.recordings, item)
                &&& out == extended(so_far, item)
            }
    }
}

/// `out` is a possible outcome of evaluating the node, `before` being the
/// recordings requested so far.
///
/// Operands are evaluated from left to right, and the first error ends the
/// evaluation. An empty operand is an error at the place of the node. The
/// short-circuit operators evaluate their right operand only where the left
/// one does not decide. The arguments of a call are evaluated only where
/// the callee can be called. A name written with a dollar sign is bound to
/// nothing, and no value has members: access to a member is a type error.
pub open spec fn node_evaluates<F: Fn(Operation) -> Real>(
    node: PosNodeView,
    variables: Map<Seq<char>, ValueView>,
    ops: &F,
    before: Seq<RecordingView>,
    out: Evaluation,
) -> bool
    decreases node,
{
    let pos = node.pos;
    match node.node {
        NodeView::Identifier(name, dollar) => {
            &&& out.recordings == before
            &&& out.value == Some(
                if !dollar && variables.contains_key(name) {
                    Ok::<ValueView, ErrorView>(variables[name])
                } else {
                    Err::<ValueView, ErrorView>(ErrorView::UndefinedVariable(name, pos))
                },
            )
        },
        NodeView::Number(value) => {
            &&& out.recordings == before
            &&& out.value == Some(Ok::<ValueView, ErrorView>(ValueView::Real(value)))
        },
        NodeView::String(s) => {
            &&& out.recordings == before
            &&& out.value == Some(Ok::<ValueView, ErrorView>(ValueView::String(s)))
        },
        NodeView::Member(object, name) => exists|inner: Evaluation|
            #![trigger forced(inner.value, pos)]
            {
                &&& evaluates(*object, variables, ops, before, inner)
                &&& out.recordings == inner.recordings
                &&& out.value == Some(
                    match forced(inner.value, pos) {
                        Err(error) => Err::<ValueView, ErrorView>(error),
                        Ok(value) => Err::<ValueView, ErrorView>(
                            ErrorView::TypeMismatch(Operator::Member, value, None, pos),
                        ),
                    },
                )
            },
        NodeView::Unary(operator, operand) => exists|inner: Evaluation|
            #![trigger forced(inner.value, pos)]
            {
                &&& evaluates(*operand, variables, ops, before, inner)
                &&& out.recordings == inner.recordings
                &&& out.value is Some
                &&& match forced(inner.value, pos) {
                    Err(error) => out.value == Some(Err::<ValueView, ErrorView>(error)),
                    Ok(value) => applies_unary(operator, value, pos, ops, out.value->Some_0),
                }
            },
        NodeView::Binary(operator, left, right) => exists|first: Evaluation|
            #![trigger forced(first.value, pos)]
            {
                &&& evaluates(*left, variables, ops, before, first)
                &&& out.value is Some
                &&& match forced(first.value, pos) {
                    Err(error) => out == (Evaluation {
                        value: Some(Err(error)),
                        recordings: first.recordings,
                    }),
                    Ok(value) => if decides(operator, value) {
                        out == (Evaluation { value: Some(decided(operator, value, pos)), recordings: first.recordings })
                    } else {
                        exists|second: Evaluation|
                            #![trigger forced(second.value, pos)]
                            {
                                &&& evaluates(*right, variables, ops, first.recordings, second)
                                &&& out.recordings == second.recordings
                                &&& match forced(second.value, pos) {
                                    Err(error) => out.value == Some(Err::<ValueView, ErrorView>(error)),
                                    Ok(other) => if operator == BinaryOperator::And || operator
                                        == BinaryOperator::Or {
                                        out.value == Some(concluded(operator, value, other, pos))
                                    } else {
                                        applies_binary(operator, value, other, pos, ops, out.value->Some_0)
                                    },
                                }
                            }
                    },
                }
            },
        NodeView::Invocation(callee, arguments) => exists|target: Evaluation|
            #![trigger forced(target.value, pos)]
            {
                &&& evaluates(*callee, variables, ops, before, target)
                &&& out.value is Some
                &&& match forced(target.value, pos) {
                    Err(error) => out == (Evaluation {
                        value: Some(Err(error)),
                        recordings: target.recordings,
                    }),
                    Ok(function) => if callable(function) {
                        exists|given: ArgumentsEvaluation|
                            #![trigger given.values]
                            {
                                &&& arguments_evaluate(
                                    arguments,
                                    variables,
                                    ops,
                                    target.recordings,
                                    arguments.len(),
                                    given,
                                )
                                &&& match given.values {
                                    Err(error) => out == (Evaluation {
                                        value: Some(Err(error)),
                                        recordings: given.recordings,
                                    }),
                                    Ok(values) => called(function, values, pos, ops, given.recordings, out),
                                }
                            }
                    } else {
                        out == (Evaluation {
                            value: Some(Err(ErrorView::NotAFunction(pos))),
                            recordings: target.recordings,
                        })
                    },
                }
            },
        NodeView::Group(inner) => exists|content: Evaluation|
            #![trigger forced(content.value, pos)]
            {
                &&& evaluates(*inner, variables, ops, before, content)
                &&& out.recordings == content.recordings
                &&& out.value == Some(forced(content.value, pos))
            },
    }
}

/// The left operand alone decides the result of the operator: a
/// short-circuit operator on anything but the boolean that asks for the
/// right operand.
pub open spec fn decides(operator: BinaryOperator, left: ValueView) -> bool {
    match operator {
        BinaryOperator::And => left != ValueView::Bool(true),
        BinaryOperator::Or => left != ValueView::Bool(false),
        _ => false,
    }
}

/// The result of a short-circuit operator that its left operand decides:
/// the left operand if it is a boolean, a type error if it is not.
pub open spec fn decided(operator: BinaryOperator, left: ValueView, pos: Pos) -> Result<ValueView, ErrorView> {
    match left {
        ValueView::Bool(b) => Ok(ValueView::Bool(b)),
        _ => Err(ErrorView::TypeMismatch(Operator::Binary(operator), left, None, pos)),
    }
}

/// The result of a short-circuit operator whose right operand was
/// evaluated: the right operand if it is a boolean, a type error if not.
pub open spec fn concluded(operator: BinaryOperator, left: ValueView, right: ValueView, pos: Pos) -> Result<
    ValueView,
    ErrorView,
> {
    match right {
        ValueView::Bool(b) => Ok(ValueView::Bool(b)),
        _ => Err(ErrorView::TypeMismatch(Operator::Binary(operator), left, Some(right), pos)),
    }
}

/// The expressions, each by what it holds.
pub open spec fn expressions_view(expressions: Seq<Expression>) -> Seq<ExpressionView> {
    Seq::new(expressions.len(), |i: int| expressions[i]@)
}

/// The values of the arguments of a call, or the first error, by what they
/// hold.
pub open spec fn arguments_view(result: Result<Vec<Value>, Error>) -> Result<Seq<ValueView>, ErrorView> {
    match result {
        Ok(values) => Ok(values_view(values@)),
        Err(error) => Err(error@),
    }
}

/// The result of an operand that is needed.
fn force(value: Option<Result<Value, Error>>, pos: Pos) -> (result: Result<Value, Error>)
    ensures
        result_view(result) == forced(evaluated_view(value), pos),
{
    match value {
        Some(result) => result,
        None => Err(Error::EmptyExpression(pos)),
    }
}

/// Calls a value that can be called with the values of its arguments.
fn call<F: Fn(Operation) -> Real>(
    callee: Value,
    arguments: Vec<Value>,
    pos: Pos,
    ops: &F,
    recordings: &mut Vec<Recording>,
) -> (result: Result<Value, Error>)
    requires
        serves_all(ops),
    ensures
        called(
            callee@,
            values_view(arguments@),
            pos,
            ops,
            recordings_view(old(recordings)@),
            Evaluation { value: Some(result_view(result)), recordings: recordings_view(final(recordings)@) },
        ),
{
    match callee {
        Value::Function(function) => call_function(function, arguments, pos, ops),
        Value::RealFunction(function) => call_real_function(function, arguments, pos, ops),
        Value::Sound(sound) => call_sound(sound, arguments, pos, ops, recordings),
        _ => Err(Error::NotAFunction(pos)),
    }
}

/// Evaluates the arguments of a call from left to right, up to the first
/// error; empty arguments are skipped.
fn evaluate_arguments<F: Fn(Operation) -> Real>(
    arguments: Vec<Expression>,
    variables: &Environment,
    ops: &F,
    recordings: &mut Vec<Recording>,
) -> (result: Result<Vec<Value>, Error>)
    requires
        serves_all(ops),
    ensures
        arguments_evaluate(
            expressions_view(arguments@),
            variables@,
            ops,
            recordings_view(old(recordings)@),
            arguments.len() as nat,
            ArgumentsEvaluation {
                values: arguments_view(result),
                recordings: recordings_view(final(recordings)@),
            },
        ),
    decreases arguments,
{
    let ghost given = arguments@;
    let ghost expressions = expressions_view(given);
    let ghost before = recordings_view(recordings@);
    let mut values: Vec<Value> = Vec::new();
    assert(values_view(values@) =~= seq![]);
    for argument in it: arguments
        invariant
            serves_all(ops),
            it.seq() == given,
            given == arguments@,
            expressions == expressions_view(given),
            before == recordings_view(old(recordings)@),
            arguments_evaluate(
                expressions,
                variables@,
                ops,
                before,
                it.index() as nat,
                ArgumentsEvaluation { values: Ok(values_view(values@)), recordings: recordings_view(recordings@) },
            ),
    {
        let ghost so_far = ArgumentsEvaluation {
            values: Ok(values_view(values@)),
            recordings: recordings_view(recordings@),
        };
        let ghost n = it.index();
        assert(expressions[n] == argument@);
        let outcome = argument.evaluate(variables, ops, recordings);
        let ghost item = Evaluation { value: evaluated_view(outcome), recordings: recordings_view(recordings@) };
        match outcome {
            None => {
                proof {
                    assert(extended(so_far, item) == ArgumentsEvaluation {
                        values: Ok(values_view(values@)),
                        recordings: recordings_view(recordings@),
                    });
                }
            },
            Some(Err(error)) => {
                proof {
                    let failed = ArgumentsEvaluation { values: Err(error@), recordings: recordings_view(recordings@) };
                    assert(extended(so_far, item) == failed);
                    assert(arguments_evaluate(expressions, variables@, ops, before, (n + 1) as nat, failed));
                    lemma_error_ends_arguments(
                        expressions,
                        variables@,
                        ops,
                        before,
                        (n + 1) as nat,
                        expressions.len(),
                        failed,
                    );
                }
                return Err(error);
            },
            Some(Ok(value)) => {
                let ghost old_values = values_view(values@);
                values.push(value);
                proof {
                    assert(values_view(values@) =~= old_values.push(value@));
                    assert(extended(so_far, item) == ArgumentsEvaluation {
                        values: Ok(values_view(values@)),
                        recordings: recordings_view(recordings@),
                    });
                }
            },
        }
    }
    Ok(values)
}

/// After an error the rest of the arguments is not evaluated: the outcome
/// of the first `n` arguments is the outcome of the first `m`.
pub proof fn lemma_error_ends_arguments<F: Fn(Operation) -> Real>(
    arguments: Seq<ExpressionView>,
    variables: Map<Seq<char>, ValueView>,
    ops: &F,
    before: Seq<RecordingView>,
    n: nat,
    m: nat,
    out: ArgumentsEvaluation,
)
    requires
        n <= m <= arguments.len(),
        out.values is Err,
        arguments_evaluate(arguments, variables, ops, before, n, out),
    ensures
        arguments_evaluate(arguments, variables, ops, before, m, out),
    decreases m - n,
{
    if n < m {
        lemma_error_ends_arguments(arguments, variables, ops, before, n, (m - 1) as nat, out);
        let item = Evaluation { value: None, recordings: out.recordings };
        assert(out == extended(out, item));
    }
}

impl Expression {
    /// Evaluates the expression. The empty expression has no result.
    ///
    /// `variables` holds the values of the names, `ops` is the arithmetic
    /// service, and each recording that the expression requests is added to
    /// `recordings`.
    pub fn evaluate<F: Fn(Operation) -> Real>(
        self,
        variables: &Environment,
        ops: &F,
        recordings: &mut Vec<Recording>,
    ) -> (result: Option<Result<Value, Error>>)
        requires
            serves_all(ops),
        ensures
            evaluates(
                self@,
                variables@,
                ops,
                recordings_view(old(recordings)@),
                Evaluation { value: evaluated_view(result), recordings: recordings_view(final(recordings)@) },
            ),
        decreases self,
    {
        match self.0 {
            Some(inner) => Some(inner.evaluate(variables, ops, recordings)),
            None => None,
        }
    }
}

impl PosNode {
    /// Evaluates the node to a value or to the first error.
    pub fn evaluate<F: Fn(Operation) -> Real>(
        self,
        variables: &Environment,
        ops: &F,
        recordings: &mut Vec<Recording>,
    ) -> (result: Result<Value, Error>)
        requires
            serves_all(ops),
        ensures
            node_evaluates(
                self@,
                variables@,
                ops,
                recordings_view(old(recordings)@),
                Evaluation { value: Some(result_view(result)), recordings: recordings_view(final(recordings)@) },
            ),
        decreases self,
    {
        let pos = self.pos;
        match self.node {
            Node::Identifier(name, dollar) => {
                if dollar {
                    return Err(Error::UndefinedVariable(name, pos));
                }
                match variables.get(name.as_str()) {
                    Some(value) => Ok(value.duplicate()),
                    None => Err(Error::UndefinedVariable(name, pos)),
                }
            },
            Node::Number(value) => Ok(Value::Real(value)),
            Node::String(s) => Ok(Value::String(s)),
            Node::Member(object, name) => {
                let inner = object.evaluate(variables, ops, recordings);
                let ghost witness = Evaluation { value: evaluated_view(inner), recordings: recordings_view(recordings@) };
                let result = match force(inner, pos) {
                    Ok(value) => Err(Error::TypeMismatch(Operator::Member, value, None, pos)),
                    Err(error) => Err(error),
                };
                assert(forced(witness.value, pos) is Ok || forced(witness.value, pos) is Err);
                result
            },
            Node::Unary(operator, operand) => {
                let inner = operand.evaluate(variables, ops, recordings);
                let ghost witness = Evaluation { value: evaluated_view(inner), recordings: recordings_view(recordings@) };
                let result = match force(inner, pos) {
                    Ok(value) => apply_unary(operator, value, pos, ops),
                    Err(error) => Err(error),
                };
                assert(forced(witness.value, pos) is Ok || forced(witness.value, pos) is Err);
                result
            },
            Node::Binary(operator, left, right) => {
                let first = left.evaluate(variables, ops, recordings);
                let ghost first_witness = Evaluation {
                    value: evaluated_view(first),
                    recordings: recordings_view(recordings@),
                };
                assert(forced(first_witness.value, pos) is Ok || forced(first_witness.value, pos) is Err);
                let value = match force(first, pos) {
                    Ok(value) => value,
                    Err(error) => {
                        return Err(error);
                    },
                };
                match operator {
                    BinaryOperator::And => match value {
                        Value::Bool(true) => {},
                        Value::Bool(false) => {
                            return Ok(Value::Bool(false));
                        },
                        other => {
                            return Err(Error::TypeMismatch(Operator::Binary(operator), other, None, pos));
                        },
                    },
                    BinaryOperator::Or => match value {
                        Value::Bool(false) => {},
                        Value::Bool(true) => {
                            return Ok(Value::Bool(true));
                        },
                        other => {
                            return Err(Error::TypeMismatch(Operator::Binary(operator), other, None, pos));
                        },
                    },
                    _ => {},
                }
                let second = right.evaluate(variables, ops, recordings);
                let ghost second_witness = Evaluation {
                    value: evaluated_view(second),
                    recordings: recordings_view(recordings@),
                };
                assert(forced(second_witness.value, pos) is Ok || forced(second_witness.value, pos) is Err);
                let other = match force(second, pos) {
                    Ok(other) => other,
                    Err(error) => {
                        return Err(error);
                    },
                };
                match operator {
                    BinaryOperator::And | BinaryOperator::Or => match other {
                        Value::Bool(b) => Ok(Value::Bool(b)),
                        other => Err(Error::TypeMismatch(Operator::Binary(operator), value, Some(other), pos)),
                    },
                    _ => apply_binary(operator, value, other, pos, ops),
                }
            },
            Node::Invocation(callee, arguments) => {
                let ghost expressions = expressions_view(arguments@);
                assert(self@.node->Invocation_1 =~= expressions);
                let target = callee.evaluate(variables, ops, recordings);
                let ghost target_witness = Evaluation {
                    value: evaluated_view(target),
                    recordings: recordings_view(recordings@),
                };
                assert(forced(target_witness.value, pos) is Ok || forced(target_witness.value, pos) is Err);
                let function = match force(target, pos) {
                    Ok(function) => function,
                    Err(error) => {
                        return Err(error);
                    },
                };
                match function {
                    Value::Function(_) | Value::RealFunction(_) | Value::Sound(_) => {
                        let given = evaluate_arguments(arguments, variables, ops, recordings);
                        let ghost given_witness = ArgumentsEvaluation {
                            values: arguments_view(given),
                            recordings: recordings_view(recordings@),
                        };
                        assert(given_witness.values is Ok || given_witness.values is Err);
                        match given {
                            Ok(values) => call(function, values, pos, ops, recordings),
                            Err(error) => Err(error),
                        }
                    },
                    _ => Err(Error::NotAFunction(pos)),
                }
            },
            Node::Group(inner) => {
                let content = inner.evaluate(variables, ops, recordings);
                let ghost witness = Evaluation { value: evaluated_view(content), recordings: recordings_view(recordings@) };
                let result = force(content, pos);
                assert(forced(witness.value, pos) is Ok || forced(witness.value, pos) is Err);
                result
            },
        }
    }
}

} // verus!
