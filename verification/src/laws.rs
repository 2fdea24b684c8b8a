//! Laws of the evaluator, the signal algebra and the sample-stream engine,
//! proved from the definitions that the contracts use.

use vstd::prelude::*;
use crate::ast::{BinaryOperator, ExpressionView, NodeView, PosNodeView};
use crate::error::{ErrorView, Operator};
use crate::evaluate::{
    any_signal, applies_binary, arithmetic, called, combinator, decided, decides, evaluates, first_stray, forced,
    lemma_first_stray_skips, node_evaluates, reals, Evaluation, RecordingView,
};
use crate::function::RealFunction;
use crate::number::{answers, BinaryFunction, Operation, Real, ONE_BITS, ZERO_BITS};
use crate::pos::Pos;
use crate::sound::{shifted, value_shifted};
use crate::stream::{
    advances, growth_per_tick, iterates, lemma_wrapped_one, polar, rendered, rotated, sample_count, steps, streams,
    turn_per_tick, wrapped, Complex, SoundIterView,
};
use crate::value::{SoundView, ValueView};

verus! {

/// The generator of a constant signal is the constant, at every sample
/// rate.
pub proof fn lemma_constant_generator<F: Fn(Operation) -> Real>(
    ops: &F,
    value: Real,
    samplerate: Real,
    generator: SoundIterView,
)
    requires
        iterates(SoundView::Const(value), samplerate, ops, generator),
    ensures
        generator == SoundIterView::Const(value),
{
}

/// A constant signal is time-invariant: however many samples its generator
/// yields, each of them is the constant, and the generator stays as it is.
pub proof fn lemma_constant_samples<F: Fn(Operation) -> Real>(
    ops: &F,
    value: Real,
    samples: Seq<Real>,
    after: SoundIterView,
)
    requires
        streams(SoundIterView::Const(value), ops, samples, after),
    ensures
        after == SoundIterView::Const(value),
        forall|i: int| 0 <= i < samples.len() ==> samples[i] == value,
    decreases samples.len(),
{
    if samples.len() > 0 {
        let middle = choose|middle: SoundIterView|
            #[trigger] middle.well_formed() && streams(
                SoundIterView::Const(value),
                ops,
                samples.drop_last(),
                middle,
            ) && steps(middle, ops, samples.last(), after);
        lemma_constant_samples(ops, value, samples.drop_last(), middle);
        assert forall|i: int| 0 <= i < samples.len() implies samples[i] == value by {
            if i < samples.len() - 1 {
                assert(samples.drop_last()[i] == samples[i]);
            }
        }
    }
}

/// Every sample of a rendering of a constant signal is the constant.
pub proof fn lemma_constant_rendering<F: Fn(Operation) -> Real>(
    ops: &F,
    value: Real,
    samplerate: u32,
    seconds: Real,
    samples: Seq<Real>,
)
    requires
        rendered(SoundView::Const(value), samplerate, seconds, ops, samples),
    ensures
        forall|i: int| 0 <= i < samples.len() ==> samples[i] == value,
{
    let (start, product, end) = choose|start: SoundIterView, product: Real, end: SoundIterView|
        #![trigger iterates(SoundView::Const(value), Real::of_u32(samplerate), ops, start), sample_count(product), end.well_formed()]
        {
            &&& iterates(SoundView::Const(value), Real::of_u32(samplerate), ops, start)
            &&& answers(ops, Operation::Binary(BinaryFunction::Mul, seconds, Real::of_u32(samplerate)), product)
            &&& samples.len() == sample_count(product)
            &&& streams(start, ops, samples, end)
            &&& end.well_formed()
        };
    lemma_constant_samples(ops, value, samples, end);
}

/// The samples of a ramp follow its recurrence: the first one is the
/// intercept, and each later one is the one before plus the difference per
/// tick, which is the slope divided by the sample rate.
pub proof fn lemma_ramp_samples<F: Fn(Operation) -> Real>(
    ops: &F,
    slope: Real,
    intercept: Real,
    samplerate: Real,
    generator: SoundIterView,
    samples: Seq<Real>,
    after: SoundIterView,
)
    requires
        iterates(SoundView::Linear { slope, intercept }, samplerate, ops, generator),
        streams(generator, ops, samples, after),
    ensures
        generator is Linear,
        answers(ops, Operation::Binary(BinaryFunction::Div, slope, samplerate), generator->Linear_difference),
        samples.len() > 0 ==> samples[0] == intercept,
        forall|k: int|
            0 < k < samples.len() ==> answers(
                ops,
                Operation::Binary(BinaryFunction::Add, samples[k - 1], generator->Linear_difference),
                #[trigger] samples[k],
            ),
        after is Linear && after->Linear_difference == generator->Linear_difference,
        samples.len() > 0 ==> answers(
            ops,
            Operation::Binary(BinaryFunction::Add, samples.last(), generator->Linear_difference),
            after->Linear_next,
        ),
        samples.len() == 0 ==> after == generator,
    decreases samples.len(),
{
    if samples.len() > 0 {
        let middle = choose|middle: SoundIterView|
            #[trigger] middle.well_formed() && streams(generator, ops, samples.drop_last(), middle) && steps(
                middle,
                ops,
                samples.last(),
                after,
            );
        lemma_ramp_samples(ops, slope, intercept, samplerate, generator, samples.drop_last(), middle);
        let shorter = samples.drop_last();
        assert forall|k: int| 0 < k < samples.len() implies answers(
            ops,
            Operation::Binary(BinaryFunction::Add, samples[k - 1], generator->Linear_difference),
            #[trigger] samples[k],
        ) by {
            if k < samples.len() - 1 {
                assert(shorter[k] == samples[k]);
                assert(shorter[k - 1] == samples[k - 1]);
            } else {
                assert(shorter.last() == samples[k - 1]);
            }
        }
        if samples.len() > 1 {
            assert(shorter[0] == samples[0]);
        }
    }
}

/// The samples of an exponential follow its recurrence: the first one is
/// the intercept, and each later one is the one before times the growth per
/// tick, which is the exponential of the coefficient divided by the sample
/// rate. No exponential is asked for after the generator is made.
pub proof fn lemma_exponential_samples<F: Fn(Operation) -> Real>(
    ops: &F,
    coefficient: Real,
    intercept: Real,
    samplerate: Real,
    generator: SoundIterView,
    samples: Seq<Real>,
    after: SoundIterView,
)
    requires
        iterates(SoundView::Exp { coefficient, intercept }, samplerate, ops, generator),
        streams(generator, ops, samples, after),
    ensures
        generator is Exp,
        growth_per_tick(ops, coefficient, samplerate, generator->Exp_ratio),
        samples.len() > 0 ==> samples[0] == intercept,
        forall|k: int|
            0 < k < samples.len() ==> answers(
                ops,
                Operation::Binary(BinaryFunction::Mul, samples[k - 1], generator->Exp_ratio),
                #[trigger] samples[k],
            ),
        after is Exp && after->Exp_ratio == generator->Exp_ratio,
        samples.len() > 0 ==> answers(
            ops,
            Operation::Binary(BinaryFunction::Mul, samples.last(), generator->Exp_ratio),
            after->Exp_next,
        ),
        samples.len() == 0 ==> after == generator,
    decreases samples.len(),
{
    if samples.len() > 0 {
        let middle = choose|middle: SoundIterView|
            #[trigger] middle.well_formed() && streams(generator, ops, samples.drop_last(), middle) && steps(
                middle,
                ops,
                samples.last(),
                after,
            );
        lemma_exponential_samples(ops, coefficient, intercept, samplerate, generator, samples.drop_last(), middle);
        let shorter = samples.drop_last();
        assert forall|k: int| 0 < k < samples.len() implies answers(
            ops,
            Operation::Binary(BinaryFunction::Mul, samples[k - 1], generator->Exp_ratio),
            #[trigger] samples[k],
        ) by {
            if k < samples.len() - 1 {
                assert(shorter[k] == samples[k]);
                assert(shorter[k - 1] == samples[k - 1]);
            } else {
                assert(shorter.last() == samples[k - 1]);
            }
        }
        if samples.len() > 1 {
            assert(shorter[0] == samples[0]);
        }
    }
}

/// The children of a combinator draw their noise from left to right: of
/// the difference of two noise generators every sample is the first random
/// number of the tick minus the second one.
pub proof fn lemma_noise_is_drawn_from_left_to_right<F: Fn(Operation) -> Real>(
    ops: &F,
    sample: Real,
    after: SoundIterView,
)
    requires
        steps(SoundIterView::Sub(Box::new(SoundIterView::Rand), Box::new(SoundIterView::Rand)), ops, sample, after),
    ensures
        after == SoundIterView::Sub(Box::new(SoundIterView::Rand), Box::new(SoundIterView::Rand)),
        exists|first: Real, second: Real|
            {
                &&& answers(ops, Operation::Random(0), first)
                &&& answers(ops, Operation::Random(1), second)
                &&& #[trigger] answers(ops, Operation::Binary(BinaryFunction::Sub, first, second), sample)
            },
{
    let none: u64 = 0;
    assert(wrapped(none + 1) == 1) by {
        lemma_wrapped_one();
    }
    let state = SoundIterView::Sub(Box::new(SoundIterView::Rand), Box::new(SoundIterView::Rand));
    assert(advances(state, ops, 0, sample, after));
    let (x, y) = choose|x: Real, y: Real|
        advances(SoundIterView::Rand, ops, none, x, *after->Sub_0) && advances(
            SoundIterView::Rand,
            ops,
            wrapped(none + SoundIterView::Rand.noise_count()),
            y,
            *after->Sub_1,
        ) && #[trigger] answers(ops, Operation::Binary(BinaryFunction::Sub, x, y), sample);
    assert(answers(ops, Operation::Random(0), x));
    assert(answers(ops, Operation::Random(1), y));
}

/// The points are an orbit of `start` under the rotation `ratio`: the first
/// point is `start`, and each later one is the one before it rotated once.
pub open spec fn orbit<F: Fn(Operation) -> Real>(ops: &F, start: Complex, ratio: Complex, points: Seq<Complex>) -> bool {
    &&& points.len() >= 1
    &&& points[0] == start
    &&& forall|k: int| 1 <= k < points.len() ==> rotated(ops, points[k - 1], ratio, #[trigger] points[k])
}

/// The samples of an oscillator follow its recurrence: a point starts at
/// the angle of the phase on the unit circle and is rotated once per tick
/// by the angle per tick; each sample is the imaginary part of the point
/// before its rotation. No sine is asked for after the generator is made.
pub proof fn lemma_oscillator_samples<F: Fn(Operation) -> Real>(
    ops: &F,
    frequency: Real,
    phase: Real,
    samplerate: Real,
    generator: SoundIterView,
    samples: Seq<Real>,
    after: SoundIterView,
)
    requires
        iterates(SoundView::Sin { frequency, phase }, samplerate, ops, generator),
        streams(generator, ops, samples, after),
    ensures
        generator is Sin,
        polar(ops, Real::of_bits(ONE_BITS), phase, generator->Sin_next),
        turn_per_tick(ops, frequency, samplerate, generator->Sin_ratio),
        after is Sin && after->Sin_ratio == generator->Sin_ratio,
        exists|points: Seq<Complex>|
            {
                &&& #[trigger] points.len() == samples.len() + 1
                &&& orbit(ops, generator->Sin_next, generator->Sin_ratio, points)
                &&& points.last() == after->Sin_next
                &&& forall|k: int| 0 <= k < samples.len() ==> #[trigger] samples[k] == points[k].im
            },
    decreases samples.len(),
{
    let start = generator->Sin_next;
    let ratio = generator->Sin_ratio;
    if samples.len() == 0 {
        let points = seq![start];
        assert(points.len() == samples.len() + 1);
        assert(orbit(ops, start, ratio, points));
    } else {
        let middle = choose|middle: SoundIterView|
            #[trigger] middle.well_formed() && streams(generator, ops, samples.drop_last(), middle) && steps(
                middle,
                ops,
                samples.last(),
                after,
            );
        lemma_oscillator_samples(ops, frequency, phase, samplerate, generator, samples.drop_last(), middle);
        let shorter = samples.drop_last();
        let earlier = choose|points: Seq<Complex>|
            {
                &&& #[trigger] points.len() == shorter.len() + 1
                &&& orbit(ops, start, ratio, points)
                &&& points.last() == middle->Sin_next
                &&& forall|k: int| 0 <= k < shorter.len() ==> #[trigger] shorter[k] == points[k].im
            };
        let points = earlier.push(after->Sin_next);
        assert(points.len() == samples.len() + 1);
        assert forall|k: int| 1 <= k < points.len() implies rotated(ops, points[k - 1], ratio, #[trigger] points[k]) by {
            if k < earlier.len() {
                assert(points[k] == earlier[k]);
                assert(points[k - 1] == earlier[k - 1]);
            } else {
                assert(points[k - 1] == earlier.last());
            }
        }
        assert(orbit(ops, start, ratio, points));
        assert forall|k: int| 0 <= k < samples.len() implies #[trigger] samples[k] == points[k].im by {
            if k < shorter.len() {
                assert(shorter[k] == samples[k]);
                assert(points[k] == earlier[k]);
            } else {
                assert(points[k] == earlier.last());
            }
        }
    }
}

/// The signal without what a shift moves: every phase and every intercept
/// is put to zero.
pub open spec fn skeleton(sound: SoundView) -> SoundView
    decreases sound,
{
    let zero = Real::of_bits(ZERO_BITS);
    match sound {
        SoundView::Const(_) => sound,
        SoundView::Linear { slope, intercept } => SoundView::Linear { slope, intercept: zero },
        SoundView::Sin { frequency, phase } => SoundView::Sin { frequency, phase: zero },
        SoundView::Exp { coefficient, intercept } => SoundView::Exp { coefficient, intercept: zero },
        SoundView::Rand => sound,
        SoundView::Minus(inner) => SoundView::Minus(Box::new(skeleton(*inner))),
        SoundView::Reciprocal(inner) => SoundView::Reciprocal(Box::new(skeleton(*inner))),
        SoundView::Add(left, right) => SoundView::Add(Box::new(skeleton(*left)), Box::new(skeleton(*right))),
        SoundView::Sub(left, right) => SoundView::Sub(Box::new(skeleton(*left)), Box::new(skeleton(*right))),
        SoundView::Mul(left, right) => SoundView::Mul(Box::new(skeleton(*left)), Box::new(skeleton(*right))),
        SoundView::Div(left, right) => SoundView::Div(Box::new(skeleton(*left)), Box::new(skeleton(*right))),
        SoundView::Pow(left, right) => SoundView::Pow(Box::new(skeleton(*left)), Box::new(skeleton(*right))),
        SoundView::Function(function, positional, named) => SoundView::Function(
            function,
            Seq::new(
                positional.len(),
                |i: int|
                    if 0 <= i < positional.len() {
                        value_skeleton(positional[i])
                    } else {
                        ValueView::Bool(false)
                    },
            ),
            Seq::new(
                named.len(),
                |i: int|
                    if 0 <= i < named.len() {
                        (named[i].0, value_skeleton(named[i].1))
                    } else {
                        (Seq::empty(), ValueView::Bool(false))
                    },
            ),
        ),
    }
}

/// The value without what a shift moves.
pub open spec fn value_skeleton(value: ValueView) -> ValueView
    decreases value,
{
    match value {
        ValueView::Sound(sound) => ValueView::Sound(skeleton(sound)),
        _ => value,
    }
}

/// A shift is structural: it changes nothing but the phases of oscillators
/// and the intercepts of ramps and exponentials. Constants, noise, slopes,
/// frequencies, coefficients, the combinators and the arguments of function
/// signals that are no signals stay as they are.
pub proof fn lemma_shift_keeps_skeleton<F: Fn(Operation) -> Real>(sound: SoundView, t: Real, ops: &F, out: SoundView)
    requires
        shifted(sound, t, ops, out),
    ensures
        skeleton(out) == skeleton(sound),
    decreases sound,
{
    match sound {
        SoundView::Minus(inner) => {
            lemma_shift_keeps_skeleton(*inner, t, ops, *out->Minus_0);
        },
        SoundView::Reciprocal(inner) => {
            lemma_shift_keeps_skeleton(*inner, t, ops, *out->Reciprocal_0);
        },
        SoundView::Add(left, right) => {
            lemma_shift_keeps_skeleton(*left, t, ops, *out->Add_0);
            lemma_shift_keeps_skeleton(*right, t, ops, *out->Add_1);
        },
        SoundView::Sub(left, right) => {
            lemma_shift_keeps_skeleton(*left, t, ops, *out->Sub_0);
            lemma_shift_keeps_skeleton(*right, t, ops, *out->Sub_1);
        },
        SoundView::Mul(left, right) => {
            lemma_shift_keeps_skeleton(*left, t, ops, *out->Mul_0);
            lemma_shift_keeps_skeleton(*right, t, ops, *out->Mul_1);
        },
        SoundView::Div(left, right) => {
            lemma_shift_keeps_skeleton(*left, t, ops, *out->Div_0);
            lemma_shift_keeps_skeleton(*right, t, ops, *out->Div_1);
        },
        SoundView::Pow(left, right) => {
            lemma_shift_keeps_skeleton(*left, t, ops, *out->Pow_0);
            lemma_shift_keeps_skeleton(*right, t, ops, *out->Pow_1);
        },
        SoundView::Function(function, positional, named) => {
            assert forall|i: int| 0 <= i < positional.len() implies value_skeleton(out->Function_1[i])
                == value_skeleton(positional[i]) by {
                assert(value_shifted(positional[i], t, ops, out->Function_1[i]));
                if positional[i] is Sound {
                    lemma_shift_keeps_skeleton(positional[i]->Sound_0, t, ops, out->Function_1[i]->Sound_0);
                }
            }
            assert forall|i: int| 0 <= i < named.len() implies out->Function_2[i].0 == named[i].0
                && value_skeleton(out->Function_2[i].1) == value_skeleton(named[i].1) by {
                assert((#[trigger] out->Function_2[i]).0 == named[i].0);
                assert(value_shifted(named[i].1, t, ops, out->Function_2[i].1));
                if named[i].1 is Sound {
                    lemma_shift_keeps_skeleton(named[i].1->Sound_0, t, ops, out->Function_2[i].1->Sound_0);
                }
            }
            assert(skeleton(out)->Function_1 =~= skeleton(sound)->Function_1);
            assert(skeleton(out)->Function_2 =~= skeleton(sound)->Function_2);
        },
        _ => {},
    }
}

/// Two shifts in a row and one shift by any time give signals of the same
/// skeleton: they differ at most in phases and intercepts.
pub proof fn lemma_shift_twice_keeps_skeleton<F: Fn(Operation) -> Real>(
    sound: SoundView,
    t1: Real,
    t2: Real,
    t3: Real,
    ops: &F,
    first: SoundView,
    twice: SoundView,
    once: SoundView,
)
    requires
        shifted(sound, t1, ops, first),
        shifted(first, t2, ops, twice),
        shifted(sound, t3, ops, once),
    ensures
        skeleton(twice) == skeleton(once),
{
    lemma_shift_keeps_skeleton(sound, t1, ops, first);
    lemma_shift_keeps_skeleton(first, t2, ops, twice);
    lemma_shift_keeps_skeleton(sound, t3, ops, once);
}

/// Noise and constants are shift-invariant.
pub proof fn lemma_shift_invariant_leaves<F: Fn(Operation) -> Real>(value: Real, t: Real, ops: &F, out: SoundView)
    ensures
        shifted(SoundView::Rand, t, ops, out) <==> out == SoundView::Rand,
        shifted(SoundView::Const(value), t, ops, out) <==> out == SoundView::Const(value),
{
}

/// Lifting: an arithmetic operator on a real and a signal, on either side,
/// never computes a real; it gives the combinator signal, with the real as
/// a constant signal.
pub proof fn lemma_scalar_and_signal_lift<F: Fn(Operation) -> Real>(
    operator: BinaryOperator,
    x: Real,
    sound: SoundView,
    pos: Pos,
    ops: &F,
    out: Result<ValueView, crate::error::ErrorView>,
)
    requires
        arithmetic(operator) is Some,
    ensures
        applies_binary(operator, ValueView::Real(x), ValueView::Sound(sound), pos, ops, out) <==> out == Ok::<
            ValueView,
            ErrorView,
        >(ValueView::Sound(combinator(arithmetic(operator)->Some_0, SoundView::Const(x), sound))),
        applies_binary(operator, ValueView::Sound(sound), ValueView::Real(x), pos, ops, out) <==> out == Ok::<
            ValueView,
            ErrorView,
        >(ValueView::Sound(combinator(arithmetic(operator)->Some_0, sound, SoundView::Const(x)))),
{
}

/// Promotion: a real function called with as many arguments as it has
/// parameters, all of them reals or signals and at least one a signal,
/// gives the function signal over these arguments, and asks nothing of the
/// arithmetic service.
pub proof fn lemma_signal_argument_promotes<F: Fn(Operation) -> Real>(
    function: RealFunction,
    values: Seq<ValueView>,
    pos: Pos,
    ops: &F,
    before: Seq<RecordingView>,
    out: Evaluation,
)
    requires
        values.len() == function.arity_spec(),
        first_stray(values, 0) == values.len(),
        any_signal(values),
    ensures
        called(ValueView::RealFunction(function), values, pos, ops, before, out) <==> out == (Evaluation {
            value: Some(Ok(ValueView::Sound(SoundView::Function(function, values, seq![])))),
            recordings: before,
        }),
{
}

/// A real function called with reals only is applied at once: the result
/// is a real, an answer of the arithmetic service to the one request.
pub proof fn lemma_real_arguments_apply<F: Fn(Operation) -> Real>(
    function: RealFunction,
    values: Seq<ValueView>,
    pos: Pos,
    ops: &F,
    before: Seq<RecordingView>,
    out: Evaluation,
)
    requires
        values.len() == function.arity_spec(),
        forall|i: int| 0 <= i < values.len() ==> (#[trigger] values[i]) is Real,
        called(ValueView::RealFunction(function), values, pos, ops, before, out),
    ensures
        out.recordings == before,
        out.value matches Some(Ok(ValueView::Real(x))) && answers(ops, function.request(reals(values)), x),
{
    lemma_first_stray_skips(values, 0, values.len() as int);
    if any_signal(values) {
        let i = choose|i: int| 0 <= i < values.len() && #[trigger] values[i] is Sound;
        assert(values[i] is Real);
    }
}

/// A call with a number of arguments other than the number of parameters
/// is an arity error that names both numbers; no argument is ignored and
/// none is made up.
pub proof fn lemma_wrong_arity_is_an_error<F: Fn(Operation) -> Real>(
    callee: ValueView,
    values: Seq<ValueView>,
    pos: Pos,
    ops: &F,
    before: Seq<RecordingView>,
    out: Evaluation,
)
    requires
        callee is Function || callee is RealFunction,
        values.len() != parameters(callee),
        values.len() <= usize::MAX,
    ensures
        called(callee, values, pos, ops, before, out) <==> out == (Evaluation {
            value: Some(Err(ErrorView::ArityMismatch(parameters(callee) as usize, values.len() as usize, pos))),
            recordings: before,
        }),
{
}

/// The number of parameters of a function or a real function.
pub open spec fn parameters(callee: ValueView) -> nat {
    match callee {
        ValueView::Function(function) => function.slots().positional.len(),
        ValueView::RealFunction(function) => function.arity_spec(),
        _ => 0,
    }
}

/// The expression that is this literal number.
pub open spec fn number_literal(value: Real, pos: Pos) -> ExpressionView {
    ExpressionView(Some(PosNodeView { pos, node: NodeView::Number(value) }))
}

/// The result is a value, and the value is no boolean.
pub open spec fn no_boolean(value: Option<Result<ValueView, ErrorView>>) -> bool {
    value is Some && value->Some_0 is Ok && !(value->Some_0->Ok_0 is Bool)
}

/// A short-circuit operator does not coerce: with a left operand that
/// evaluates to a value that is no boolean, the result is a type error that
/// names the operator and that value, and the right operand is not
/// evaluated.
pub proof fn lemma_short_circuit_rejects_non_boolean<F: Fn(Operation) -> Real>(
    operator: BinaryOperator,
    left: ExpressionView,
    right: ExpressionView,
    pos: Pos,
    variables: Map<Seq<char>, ValueView>,
    ops: &F,
    before: Seq<RecordingView>,
    out: Evaluation,
)
    requires
        operator == BinaryOperator::And || operator == BinaryOperator::Or,
        forall|first: Evaluation| #[trigger]
            evaluates(left, variables, ops, before, first) ==> no_boolean(first.value),
        node_evaluates(
            PosNodeView { pos, node: NodeView::Binary(operator, Box::new(left), Box::new(right)) },
            variables,
            ops,
            before,
            out,
        ),
    ensures
        exists|first: Evaluation|
            #![trigger forced(first.value, pos)]
            evaluates(left, variables, ops, before, first) && no_boolean(first.value) && out == (Evaluation {
                value: Some(
                    Err(
                        ErrorView::TypeMismatch(
                            Operator::Binary(operator),
                            first.value->Some_0->Ok_0,
                            None,
                            pos,
                        ),
                    ),
                ),
                recordings: first.recordings,
            }),
{
    let first = choose|first: Evaluation|
        #![trigger forced(first.value, pos)]
        {
            &&& evaluates(left, variables, ops, before, first)
            &&& out.value is Some
            &&& match forced(first.value, pos) {
                Err(error) => out == (Evaluation { value: Some(Err(error)), recordings: first.recordings }),
                Ok(value) => if decides(operator, value) {
                    out == (Evaluation { value: Some(decided(operator, value, pos)), recordings: first.recordings })
                } else {
                    true
                },
            }
        };
    assert(evaluates(left, variables, ops, before, first));
    assert(forced(first.value, pos) is Ok);
}

/// `2 && 3`, and every short-circuit operator on a literal number: the
/// result is the type error that names the operator and the number.
pub proof fn lemma_short_circuit_on_number<F: Fn(Operation) -> Real>(
    operator: BinaryOperator,
    x: Real,
    right: ExpressionView,
    pos: Pos,
    literal_pos: Pos,
    variables: Map<Seq<char>, ValueView>,
    ops: &F,
    before: Seq<RecordingView>,
    out: Evaluation,
)
    requires
        operator == BinaryOperator::And || operator == BinaryOperator::Or,
        node_evaluates(
            PosNodeView {
                pos,
                node: NodeView::Binary(operator, Box::new(number_literal(x, literal_pos)), Box::new(right)),
            },
            variables,
            ops,
            before,
            out,
        ),
    ensures
        out == (Evaluation {
            value: Some(Err(ErrorView::TypeMismatch(Operator::Binary(operator), ValueView::Real(x), None, pos))),
            recordings: before,
        }),
{
    lemma_short_circuit_rejects_non_boolean(
        operator,
        number_literal(x, literal_pos),
        right,
        pos,
        variables,
        ops,
        before,
        out,
    );
}

} // verus!
