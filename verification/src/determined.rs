//! The results are determined by the arithmetic service: where the service
//! gives one answer to each request, each of the relations by which the
//! contracts are stated holds of one result only.

use vstd::prelude::*;
use crate::ast::{BinaryOperator, ExpressionView, NodeView, PosNodeView, UnaryOperator};
use crate::error::{ErrorView, Operator};
use crate::evaluate::{
    apart, applies_binary, applies_unary, arguments_evaluate, callable, called, close, concluded, decided, decides,
    evaluates, extended, forced, node_evaluates, ArgumentsEvaluation, Evaluation, RecordingView,
};
use crate::function::{BindingsView, Function};
use crate::number::{
    answers, BinaryFunction, Operation, Real, UnaryFunction, AMPLITUDE_BITS, ONE_BITS, TAU_BITS, TOLERANCE_BITS,
};
use crate::pos::Pos;
use crate::sound::{product_sum, shifted, shifted_intercept, shifted_phase, value_shifted};
use crate::stream::{
    advances, angle_per_tick, argument_iterates, growth_per_tick, iterates, noise_before, polar, quantized, rendered,
    rotated, sample_count, steps, streams, turn_per_tick, wrapped, written, Complex, SoundIterView,
};
use crate::value::{SoundView, ValueView};

verus! {

/// The service gives one answer to each request.
pub open spec fn deterministic<F: Fn(Operation) -> Real>(ops: &F) -> bool {
    forall|operation: Operation, first: Real, second: Real|
        #![trigger answers(ops, operation, first), answers(ops, operation, second)]
        answers(ops, operation, first) && answers(ops, operation, second) ==> first == second
}

/// A product plus a number has one value.
pub proof fn lemma_product_sum_determined<F: Fn(Operation) -> Real>(
    ops: &F,
    a: Real,
    b: Real,
    c: Real,
    first: Real,
    second: Real,
)
    requires
        deterministic(ops),
        product_sum(ops, a, b, c, first),
        product_sum(ops, a, b, c, second),
    ensures
        first == second,
{
    let p = choose|p: Real|
        #[trigger] answers(ops, Operation::Binary(BinaryFunction::Mul, a, b), p) && answers(
            ops,
            Operation::Binary(BinaryFunction::Add, p, c),
            first,
        );
    let q = choose|q: Real|
        #[trigger] answers(ops, Operation::Binary(BinaryFunction::Mul, a, b), q) && answers(
            ops,
            Operation::Binary(BinaryFunction::Add, q, c),
            second,
        );
    assert(p == q);
}

/// The phase of a shifted oscillator has one value.
pub proof fn lemma_shifted_phase_determined<F: Fn(Operation) -> Real>(
    ops: &F,
    frequency: Real,
    phase: Real,
    t: Real,
    first: Real,
    second: Real,
)
    requires
        deterministic(ops),
        shifted_phase(ops, frequency, phase, t, first),
        shifted_phase(ops, frequency, phase, t, second),
    ensures
        first == second,
{
    let p = choose|turns: Real|
        #[trigger] answers(ops, Operation::Binary(BinaryFunction::Mul, Real::of_bits(TAU_BITS), frequency), turns)
            && product_sum(ops, turns, t, phase, first);
    let q = choose|turns: Real|
        #[trigger] answers(ops, Operation::Binary(BinaryFunction::Mul, Real::of_bits(TAU_BITS), frequency), turns)
            && product_sum(ops, turns, t, phase, second);
    assert(p == q);
    lemma_product_sum_determined(ops, p, t, phase, first, second);
}

/// The intercept of a shifted exponential has one value.
pub proof fn lemma_shifted_intercept_determined<F: Fn(Operation) -> Real>(
    ops: &F,
    coefficient: Real,
    intercept: Real,
    t: Real,
    first: Real,
    second: Real,
)
    requires
        deterministic(ops),
        shifted_intercept(ops, coefficient, intercept, t, first),
        shifted_intercept(ops, coefficient, intercept, t, second),
    ensures
        first == second,
{
    let (e1, g1) = choose|exponent: Real, growth: Real|
        #![trigger answers(ops, Operation::Binary(BinaryFunction::Mul, coefficient, t), exponent), answers(ops, Operation::Unary(UnaryFunction::Exp, exponent), growth)]
        answers(ops, Operation::Binary(BinaryFunction::Mul, coefficient, t), exponent) && answers(
            ops,
            Operation::Unary(UnaryFunction::Exp, exponent),
            growth,
        ) && answers(ops, Operation::Binary(BinaryFunction::Mul, intercept, growth), first);
    let (e2, g2) = choose|exponent: Real, growth: Real|
        #![trigger answers(ops, Operation::Binary(BinaryFunction::Mul, coefficient, t), exponent), answers(ops, Operation::Unary(UnaryFunction::Exp, exponent), growth)]
        answers(ops, Operation::Binary(BinaryFunction::Mul, coefficient, t), exponent) && answers(
            ops,
            Operation::Unary(UnaryFunction::Exp, exponent),
            growth,
        ) && answers(ops, Operation::Binary(BinaryFunction::Mul, intercept, growth), second);
    assert(e1 == e2);
    assert(g1 == g2);
}

/// A shift has one result.
pub proof fn lemma_shift_determined<F: Fn(Operation) -> Real>(
    sound: SoundView,
    t: Real,
    ops: &F,
    first: SoundView,
    second: SoundView,
)
    requires
        deterministic(ops),
        shifted(sound, t, ops, first),
        shifted(sound, t, ops, second),
    ensures
        first == second,
    decreases sound,
{
    match sound {
        SoundView::Linear { slope, intercept } => {
            lemma_product_sum_determined(
                ops,
                slope,
                t,
                intercept,
                first->Linear_intercept,
                second->Linear_intercept,
            );
        },
        SoundView::Sin { frequency, phase } => {
            lemma_shifted_phase_determined(ops, frequency, phase, t, first->Sin_phase, second->Sin_phase);
        },
        SoundView::Exp { coefficient, intercept } => {
            lemma_shifted_intercept_determined(
                ops,
                coefficient,
                intercept,
                t,
                first->Exp_intercept,
                second->Exp_intercept,
            );
        },
        SoundView::Minus(inner) => {
            lemma_shift_determined(*inner, t, ops, *first->Minus_0, *second->Minus_0);
        },
        SoundView::Reciprocal(inner) => {
            lemma_shift_determined(*inner, t, ops, *first->Reciprocal_0, *second->Reciprocal_0);
        },
        SoundView::Add(left, right) => {
            lemma_shift_determined(*left, t, ops, *first->Add_0, *second->Add_0);
            lemma_shift_determined(*right, t, ops, *first->Add_1, *second->Add_1);
        },
        SoundView::Sub(left, right) => {
            lemma_shift_determined(*left, t, ops, *first->Sub_0, *second->Sub_0);
            lemma_shift_determined(*right, t, ops, *first->Sub_1, *second->Sub_1);
        },
        SoundView::Mul(left, right) => {
            lemma_shift_determined(*left, t, ops, *first->Mul_0, *second->Mul_0);
            lemma_shift_determined(*right, t, ops, *first->Mul_1, *second->Mul_1);
        },
        SoundView::Div(left, right) => {
            lemma_shift_determined(*left, t, ops, *first->Div_0, *second->Div_0);
            lemma_shift_determined(*right, t, ops, *first->Div_1, *second->Div_1);
        },
        SoundView::Pow(left, right) => {
            lemma_shift_determined(*left, t, ops, *first->Pow_0, *second->Pow_0);
            lemma_shift_determined(*right, t, ops, *first->Pow_1, *second->Pow_1);
        },
        SoundView::Function(function, positional, named) => {
            assert forall|i: int| 0 <= i < positional.len() implies first->Function_1[i]
                == second->Function_1[i] by {
                lemma_value_shift_determined(positional[i], t, ops, first->Function_1[i], second->Function_1[i]);
            }
            assert forall|i: int| 0 <= i < named.len() implies first->Function_2[i] == second->Function_2[i] by {
                lemma_value_shift_determined(
                    named[i].1,
                    t,
                    ops,
                    first->Function_2[i].1,
                    second->Function_2[i].1,
                );
            }
            assert(first->Function_1 =~= second->Function_1);
            assert(first->Function_2 =~= second->Function_2);
        },
        _ => {},
    }
}

/// A shift of a value has one result.
pub proof fn lemma_value_shift_determined<F: Fn(Operation) -> Real>(
    value: ValueView,
    t: Real,
    ops: &F,
    first: ValueView,
    second: ValueView,
)
    requires
        deterministic(ops),
        value_shifted(value, t, ops, first),
        value_shifted(value, t, ops, second),
    ensures
        first == second,
    decreases value,
{
    match value {
        ValueView::Sound(sound) => {
            lemma_shift_determined(sound, t, ops, first->Sound_0, second->Sound_0);
        },
        _ => {},
    }
}

/// A complex product has one value.
pub proof fn lemma_rotation_determined<F: Fn(Operation) -> Real>(
    ops: &F,
    z: Complex,
    w: Complex,
    first: Complex,
    second: Complex,
)
    requires
        deterministic(ops),
        rotated(ops, z, w, first),
        rotated(ops, z, w, second),
    ensures
        first == second,
{
    let (a1, b1, c1, d1) = choose|a: Real, b: Real, c: Real, d: Real|
        #![trigger answers(ops, Operation::Binary(BinaryFunction::Mul, z.re, w.re), a), answers(ops, Operation::Binary(BinaryFunction::Mul, z.im, w.im), b), answers(ops, Operation::Binary(BinaryFunction::Mul, z.im, w.re), c), answers(ops, Operation::Binary(BinaryFunction::Mul, z.re, w.im), d)]
        {
            &&& answers(ops, Operation::Binary(BinaryFunction::Mul, z.re, w.re), a)
            &&& answers(ops, Operation::Binary(BinaryFunction::Mul, z.im, w.im), b)
            &&& answers(ops, Operation::Binary(BinaryFunction::Sub, a, b), first.re)
            &&& answers(ops, Operation::Binary(BinaryFunction::Mul, z.im, w.re), c)
            &&& answers(ops, Operation::Binary(BinaryFunction::Mul, z.re, w.im), d)
            &&& answers(ops, Operation::Binary(BinaryFunction::Add, c, d), first.im)
        };
    let (a2, b2, c2, d2) = choose|a: Real, b: Real, c: Real, d: Real|
        #![trigger answers(ops, Operation::Binary(BinaryFunction::Mul, z.re, w.re), a), answers(ops, Operation::Binary(BinaryFunction::Mul, z.im, w.im), b), answers(ops, Operation::Binary(BinaryFunction::Mul, z.im, w.re), c), answers(ops, Operation::Binary(BinaryFunction::Mul, z.re, w.im), d)]
        {
            &&& answers(ops, Operation::Binary(BinaryFunction::Mul, z.re, w.re), a)
            &&& answers(ops, Operation::Binary(BinaryFunction::Mul, z.im, w.im), b)
            &&& answers(ops, Operation::Binary(BinaryFunction::Sub, a, b), second.re)
            &&& answers(ops, Operation::Binary(BinaryFunction::Mul, z.im, w.re), c)
            &&& answers(ops, Operation::Binary(BinaryFunction::Mul, z.re, w.im), d)
            &&& answers(ops, Operation::Binary(BinaryFunction::Add, c, d), second.im)
        };
    assert(a1 == a2 && b1 == b2 && c1 == c2 && d1 == d2);
}

/// A polar form has one value.
pub proof fn lemma_polar_determined<F: Fn(Operation) -> Real>(
    ops: &F,
    r: Real,
    theta: Real,
    first: Complex,
    second: Complex,
)
    requires
        deterministic(ops),
        polar(ops, r, theta, first),
        polar(ops, r, theta, second),
    ensures
        first == second,
{
    let (c1, s1) = choose|c: Real, s: Real|
        #![trigger answers(ops, Operation::Unary(UnaryFunction::Cos, theta), c), answers(ops, Operation::Unary(UnaryFunction::Sin, theta), s)]
        {
            &&& answers(ops, Operation::Unary(UnaryFunction::Cos, theta), c)
            &&& answers(ops, Operation::Binary(BinaryFunction::Mul, r, c), first.re)
            &&& answers(ops, Operation::Unary(UnaryFunction::Sin, theta), s)
            &&& answers(ops, Operation::Binary(BinaryFunction::Mul, r, s), first.im)
        };
    let (c2, s2) = choose|c: Real, s: Real|
        #![trigger answers(ops, Operation::Unary(UnaryFunction::Cos, theta), c), answers(ops, Operation::Unary(UnaryFunction::Sin, theta), s)]
        {
            &&& answers(ops, Operation::Unary(UnaryFunction::Cos, theta), c)
            &&& answers(ops, Operation::Binary(BinaryFunction::Mul, r, c), second.re)
            &&& answers(ops, Operation::Unary(UnaryFunction::Sin, theta), s)
            &&& answers(ops, Operation::Binary(BinaryFunction::Mul, r, s), second.im)
        };
    assert(c1 == c2 && s1 == s2);
}

/// The rotation of an oscillator per tick has one value.
pub proof fn lemma_turn_determined<F: Fn(Operation) -> Real>(
    ops: &F,
    frequency: Real,
    samplerate: Real,
    first: Complex,
    second: Complex,
)
    requires
        deterministic(ops),
        turn_per_tick(ops, frequency, samplerate, first),
        turn_per_tick(ops, frequency, samplerate, second),
    ensures
        first == second,
{
    let a1 = choose|angle: Real|
        angle_per_tick(ops, frequency, samplerate, angle) && #[trigger] polar(
            ops,
            Real::of_bits(ONE_BITS),
            angle,
            first,
        );
    let a2 = choose|angle: Real|
        angle_per_tick(ops, frequency, samplerate, angle) && #[trigger] polar(
            ops,
            Real::of_bits(ONE_BITS),
            angle,
            second,
        );
    let t1 = choose|turns: Real|
        #[trigger] answers(ops, Operation::Binary(BinaryFunction::Mul, Real::of_bits(TAU_BITS), frequency), turns)
            && answers(ops, Operation::Binary(BinaryFunction::Div, turns, samplerate), a1);
    let t2 = choose|turns: Real|
        #[trigger] answers(ops, Operation::Binary(BinaryFunction::Mul, Real::of_bits(TAU_BITS), frequency), turns)
            && answers(ops, Operation::Binary(BinaryFunction::Div, turns, samplerate), a2);
    assert(t1 == t2);
    assert(a1 == a2);
    lemma_polar_determined(ops, Real::of_bits(ONE_BITS), a1, first, second);
}

/// The growth of an exponential per tick has one value.
pub proof fn lemma_growth_determined<F: Fn(Operation) -> Real>(
    ops: &F,
    coefficient: Real,
    samplerate: Real,
    first: Real,
    second: Real,
)
    requires
        deterministic(ops),
        growth_per_tick(ops, coefficient, samplerate, first),
        growth_per_tick(ops, coefficient, samplerate, second),
    ensures
        first == second,
{
    let e1 = choose|exponent: Real|
        #[trigger] answers(ops, Operation::Binary(BinaryFunction::Div, coefficient, samplerate), exponent)
            && answers(ops, Operation::Unary(UnaryFunction::Exp, exponent), first);
    let e2 = choose|exponent: Real|
        #[trigger] answers(ops, Operation::Binary(BinaryFunction::Div, coefficient, samplerate), exponent)
            && answers(ops, Operation::Unary(UnaryFunction::Exp, exponent), second);
    assert(e1 == e2);
}

/// A signal has one generator at a sample rate.
pub proof fn lemma_generator_determined<F: Fn(Operation) -> Real>(
    sound: SoundView,
    samplerate: Real,
    ops: &F,
    first: SoundIterView,
    second: SoundIterView,
)
    requires
        deterministic(ops),
        iterates(sound, samplerate, ops, first),
        iterates(sound, samplerate, ops, second),
    ensures
        first == second,
    decreases sound,
{
    match sound {
        SoundView::Sin { frequency, phase } => {
            lemma_polar_determined(ops, Real::of_bits(ONE_BITS), phase, first->Sin_next, second->Sin_next);
            lemma_turn_determined(ops, frequency, samplerate, first->Sin_ratio, second->Sin_ratio);
        },
        SoundView::Exp { coefficient, intercept } => {
            lemma_growth_determined(ops, coefficient, samplerate, first->Exp_ratio, second->Exp_ratio);
        },
        SoundView::Minus(inner) => {
            lemma_generator_determined(*inner, samplerate, ops, *first->Minus_0, *second->Minus_0);
        },
        SoundView::Reciprocal(inner) => {
            lemma_generator_determined(*inner, samplerate, ops, *first->Reciprocal_0, *second->Reciprocal_0);
        },
        SoundView::Add(left, right) => {
            lemma_generator_determined(*left, samplerate, ops, *first->Add_0, *second->Add_0);
            lemma_generator_determined(*right, samplerate, ops, *first->Add_1, *second->Add_1);
        },
        SoundView::Sub(left, right) => {
            lemma_generator_determined(*left, samplerate, ops, *first->Sub_0, *second->Sub_0);
            lemma_generator_determined(*right, samplerate, ops, *first->Sub_1, *second->Sub_1);
        },
        SoundView::Mul(left, right) => {
            lemma_generator_determined(*left, samplerate, ops, *first->Mul_0, *second->Mul_0);
            lemma_generator_determined(*right, samplerate, ops, *first->Mul_1, *second->Mul_1);
        },
        SoundView::Div(left, right) => {
            lemma_generator_determined(*left, samplerate, ops, *first->Div_0, *second->Div_0);
            lemma_generator_determined(*right, samplerate, ops, *first->Div_1, *second->Div_1);
        },
        SoundView::Pow(left, right) => {
            lemma_generator_determined(*left, samplerate, ops, *first->Pow_0, *second->Pow_0);
            lemma_generator_determined(*right, samplerate, ops, *first->Pow_1, *second->Pow_1);
        },
        SoundView::Function(function, positional, named) => {
            assert forall|k: int| 0 <= k < first->Function_2.len() implies first->Function_2[k]
                == second->Function_2[k] by {
                let place = (#[trigger] first->Function_2[k]).0 as int;
                assert((#[trigger] second->Function_2[k]).0 as int == place);
                assert(argument_iterates(positional, place, samplerate, ops, first->Function_2[k].1));
                assert(argument_iterates(positional, place, samplerate, ops, second->Function_2[k].1));
                lemma_generator_determined(
                    positional[place]->Sound_0,
                    samplerate,
                    ops,
                    first->Function_2[k].1,
                    second->Function_2[k].1,
                );
            }
            assert(first->Function_2 =~= second->Function_2);
        },
        _ => {},
    }
}

/// One tick of a generator has one sample and leaves one state.
pub proof fn lemma_tick_determined<F: Fn(Operation) -> Real>(
    state: SoundIterView,
    ops: &F,
    drawn: u64,
    sample: Real,
    first: SoundIterView,
    other: Real,
    second: SoundIterView,
)
    requires
        deterministic(ops),
        advances(state, ops, drawn, sample, first),
        advances(state, ops, drawn, other, second),
    ensures
        sample == other,
        first == second,
    decreases state,
{
    match state {
        SoundIterView::Sin { next, ratio } => {
            lemma_rotation_determined(ops, next, ratio, first->Sin_next, second->Sin_next);
        },
        SoundIterView::Minus(inner) => {
            let x1 = choose|x: Real| advances(*inner, ops, drawn, x, *first->Minus_0) && sample == #[trigger] x.negated();
            let x2 = choose|x: Real| advances(*inner, ops, drawn, x, *second->Minus_0) && other == #[trigger] x.negated();
            lemma_tick_determined(*inner, ops, drawn, x1, *first->Minus_0, x2, *second->Minus_0);
        },
        SoundIterView::Reciprocal(inner) => {
            let x1 = choose|x: Real|
                advances(*inner, ops, drawn, x, *first->Reciprocal_0) && #[trigger] answers(
                    ops,
                    Operation::Binary(BinaryFunction::Div, Real::of_bits(ONE_BITS), x),
                    sample,
                );
            let x2 = choose|x: Real|
                advances(*inner, ops, drawn, x, *second->Reciprocal_0) && #[trigger] answers(
                    ops,
                    Operation::Binary(BinaryFunction::Div, Real::of_bits(ONE_BITS), x),
                    other,
                );
            lemma_tick_determined(*inner, ops, drawn, x1, *first->Reciprocal_0, x2, *second->Reciprocal_0);
        },
        SoundIterView::Add(left, right) => {
            let (x1, y1) = choose|x: Real, y: Real|
                advances(*left, ops, drawn, x, *first->Add_0) && advances(
                    *right,
                    ops,
                    wrapped(drawn + left.noise_count()),
                    y,
                    *first->Add_1,
                ) && #[trigger] answers(ops, Operation::Binary(BinaryFunction::Add, x, y), sample);
            let (x2, y2) = choose|x: Real, y: Real|
                advances(*left, ops, drawn, x, *second->Add_0) && advances(
                    *right,
                    ops,
                    wrapped(drawn + left.noise_count()),
                    y,
                    *second->Add_1,
                ) && #[trigger] answers(ops, Operation::Binary(BinaryFunction::Add, x, y), other);
            lemma_tick_determined(*left, ops, drawn, x1, *first->Add_0, x2, *second->Add_0);
            lemma_tick_determined(
                *right,
                ops,
                wrapped(drawn + left.noise_count()),
                y1,
                *first->Add_1,
                y2,
                *second->Add_1,
            );
        },
        SoundIterView::Sub(left, right) => {
            let (x1, y1) = choose|x: Real, y: Real|
                advances(*left, ops, drawn, x, *first->Sub_0) && advances(
                    *right,
                    ops,
                    wrapped(drawn + left.noise_count()),
                    y,
                    *first->Sub_1,
                ) && #[trigger] answers(ops, Operation::Binary(BinaryFunction::Sub, x, y), sample);
            let (x2, y2) = choose|x: Real, y: Real|
                advances(*left, ops, drawn, x, *second->Sub_0) && advances(
                    *right,
                    ops,
                    wrapped(drawn + left.noise_count()),
                    y,
                    *second->Sub_1,
                ) && #[trigger] answers(ops, Operation::Binary(BinaryFunction::Sub, x, y), other);
            lemma_tick_determined(*left, ops, drawn, x1, *first->Sub_0, x2, *second->Sub_0);
            lemma_tick_determined(
                *right,
                ops,
                wrapped(drawn + left.noise_count()),
                y1,
                *first->Sub_1,
                y2,
                *second->Sub_1,
            );
        },
        SoundIterView::Mul(left, right) => {
            let (x1, y1) = choose|x: Real, y: Real|
                advances(*left, ops, drawn, x, *first->Mul_0) && advances(
                    *right,
                    ops,
                    wrapped(drawn + left.noise_count()),
                    y,
                    *first->Mul_1,
                ) && #[trigger] answers(ops, Operation::Binary(BinaryFunction::Mul, x, y), sample);
            let (x2, y2) = choose|x: Real, y: Real|
                advances(*left, ops, drawn, x, *second->Mul_0) && advances(
                    *right,
                    ops,
                    wrapped(drawn + left.noise_count()),
                    y,
                    *second->Mul_1,
                ) && #[trigger] answers(ops, Operation::Binary(BinaryFunction::Mul, x, y), other);
            lemma_tick_determined(*left, ops, drawn, x1, *first->Mul_0, x2, *second->Mul_0);
            lemma_tick_determined(
                *right,
                ops,
                wrapped(drawn + left.noise_count()),
                y1,
                *first->Mul_1,
                y2,
                *second->Mul_1,
            );
        },
        SoundIterView::Div(left, right) => {
            let (x1, y1) = choose|x: Real, y: Real|
                advances(*left, ops, drawn, x, *first->Div_0) && advances(
                    *right,
                    ops,
                    wrapped(drawn + left.noise_count()),
                    y,
                    *first->Div_1,
                ) && #[trigger] answers(ops, Operation::Binary(BinaryFunction::Div, x, y), sample);
            let (x2, y2) = choose|x: Real, y: Real|
                advances(*left, ops, drawn, x, *second->Div_0) && advances(
                    *right,
                    ops,
                    wrapped(drawn + left.noise_count()),
                    y,
                    *second->Div_1,
                ) && #[trigger] answers(ops, Operation::Binary(BinaryFunction::Div, x, y), other);
            lemma_tick_determined(*left, ops, drawn, x1, *first->Div_0, x2, *second->Div_0);
            lemma_tick_determined(
                *right,
                ops,
                wrapped(drawn + left.noise_count()),
                y1,
                *first->Div_1,
                y2,
                *second->Div_1,
            );
        },
        SoundIterView::Pow(left, right) => {
            let (x1, y1) = choose|x: Real, y: Real|
                advances(*left, ops, drawn, x, *first->Pow_0) && advances(
                    *right,
                    ops,
                    wrapped(drawn + left.noise_count()),
                    y,
                    *first->Pow_1,
                ) && #[trigger] answers(ops, Operation::Binary(BinaryFunction::Pow, x, y), sample);
            let (x2, y2) = choose|x: Real, y: Real|
                advances(*left, ops, drawn, x, *second->Pow_0) && advances(
                    *right,
                    ops,
                    wrapped(drawn + left.noise_count()),
                    y,
                    *second->Pow_1,
                ) && #[trigger] answers(ops, Operation::Binary(BinaryFunction::Pow, x, y), other);
            lemma_tick_determined(*left, ops, drawn, x1, *first->Pow_0, x2, *second->Pow_0);
            lemma_tick_determined(
                *right,
                ops,
                wrapped(drawn + left.noise_count()),
                y1,
                *first->Pow_1,
                y2,
                *second->Pow_1,
            );
        },
        SoundIterView::Function(function, slots, children) => {
            let samples = choose|samples: Seq<Real>|
                {
                    &&& samples.len() == children.len()
                    &&& forall|i: int|
                        0 <= i < children.len() ==> (#[trigger] first->Function_2[i]).0 == children[i].0
                            && advances(
                            children[i].1,
                            ops,
                            wrapped(drawn + noise_before(children, i as nat)),
                            samples[i],
                            first->Function_2[i].1,
                        )
                    &&& first->Function_1 == #[trigger] written(slots, children, samples, children.len())
                    &&& answers(ops, function.request(first->Function_1), sample)
                };
            let others = choose|samples: Seq<Real>|
                {
                    &&& samples.len() == children.len()
                    &&& forall|i: int|
                        0 <= i < children.len() ==> (#[trigger] second->Function_2[i]).0 == children[i].0
                            && advances(
                            children[i].1,
                            ops,
                            wrapped(drawn + noise_before(children, i as nat)),
                            samples[i],
                            second->Function_2[i].1,
                        )
                    &&& second->Function_1 == #[trigger] written(slots, children, samples, children.len())
                    &&& answers(ops, function.request(second->Function_1), other)
                };
            assert forall|i: int| 0 <= i < children.len() implies samples[i] == others[i] && first->Function_2[i]
                == second->Function_2[i] by {
                assert((#[trigger] first->Function_2[i]).0 == children[i].0);
                assert((#[trigger] second->Function_2[i]).0 == children[i].0);
                lemma_tick_determined(
                    children[i].1,
                    ops,
                    wrapped(drawn + noise_before(children, i as nat)),
                    samples[i],
                    first->Function_2[i].1,
                    others[i],
                    second->Function_2[i].1,
                );
            }
            assert(samples =~= others);
            assert(first->Function_2 =~= second->Function_2);
        },
        _ => {},
    }
}

/// A generator has one sequence of samples of each length, and one state
/// after it.
pub proof fn lemma_samples_determined<F: Fn(Operation) -> Real>(
    state: SoundIterView,
    ops: &F,
    samples: Seq<Real>,
    first: SoundIterView,
    others: Seq<Real>,
    second: SoundIterView,
)
    requires
        deterministic(ops),
        samples.len() == others.len(),
        streams(state, ops, samples, first),
        streams(state, ops, others, second),
    ensures
        samples == others,
        first == second,
    decreases samples.len(),
{
    if samples.len() > 0 {
        let m1 = choose|middle: SoundIterView|
            #[trigger] middle.well_formed() && streams(state, ops, samples.drop_last(), middle) && steps(
                middle,
                ops,
                samples.last(),
                first,
            );
        let m2 = choose|middle: SoundIterView|
            #[trigger] middle.well_formed() && streams(state, ops, others.drop_last(), middle) && steps(
                middle,
                ops,
                others.last(),
                second,
            );
        lemma_samples_determined(state, ops, samples.drop_last(), m1, others.drop_last(), m2);
        lemma_tick_determined(m1, ops, 0, samples.last(), first, others.last(), second);
        assert(samples =~= samples.drop_last().push(samples.last()));
        assert(others =~= others.drop_last().push(others.last()));
    } else {
        assert(samples =~= others);
    }
}

/// A signal has one rendering for a duration at a sample rate.
pub proof fn lemma_rendering_determined<F: Fn(Operation) -> Real>(
    sound: SoundView,
    samplerate: u32,
    seconds: Real,
    ops: &F,
    samples: Seq<Real>,
    others: Seq<Real>,
)
    requires
        deterministic(ops),
        rendered(sound, samplerate, seconds, ops, samples),
        rendered(sound, samplerate, seconds, ops, others),
    ensures
        samples == others,
{
    let (s1, p1, e1) = choose|start: SoundIterView, product: Real, end: SoundIterView|
        #![trigger iterates(sound, Real::of_u32(samplerate), ops, start), sample_count(product), end.well_formed()]
        {
            &&& iterates(sound, Real::of_u32(samplerate), ops, start)
            &&& answers(ops, Operation::Binary(BinaryFunction::Mul, seconds, Real::of_u32(samplerate)), product)
            &&& samples.len() == sample_count(product)
            &&& streams(start, ops, samples, end)
            &&& end.well_formed()
        };
    let (s2, p2, e2) = choose|start: SoundIterView, product: Real, end: SoundIterView|
        #![trigger iterates(sound, Real::of_u32(samplerate), ops, start), sample_count(product), end.well_formed()]
        {
            &&& iterates(sound, Real::of_u32(samplerate), ops, start)
            &&& answers(ops, Operation::Binary(BinaryFunction::Mul, seconds, Real::of_u32(samplerate)), product)
            &&& others.len() == sample_count(product)
            &&& streams(start, ops, others, end)
            &&& end.well_formed()
        };
    lemma_generator_determined(sound, Real::of_u32(samplerate), ops, s1, s2);
    assert(p1 == p2);
    lemma_samples_determined(s1, ops, samples, e1, others, e2);
}

/// A sample has one 32-bit sample.
pub proof fn lemma_quantization_determined<F: Fn(Operation) -> Real>(ops: &F, sample: Real, first: i32, second: i32)
    requires
        deterministic(ops),
        quantized(ops, sample, first),
        quantized(ops, sample, second),
    ensures
        first == second,
{
    let x = choose|scaled: Real|
        #[trigger] answers(
            ops,
            Operation::Binary(BinaryFunction::Mul, Real::of_bits(AMPLITUDE_BITS), sample),
            scaled,
        ) && first == scaled.truncated_to_i32();
    let y = choose|scaled: Real|
        #[trigger] answers(
            ops,
            Operation::Binary(BinaryFunction::Mul, Real::of_bits(AMPLITUDE_BITS), sample),
            scaled,
        ) && second == scaled.truncated_to_i32();
    assert(x == y);
}

/// A unary operator has one result on a value.
pub proof fn lemma_unary_determined<F: Fn(Operation) -> Real>(
    operator: UnaryOperator,
    value: ValueView,
    pos: Pos,
    ops: &F,
    first: Result<ValueView, ErrorView>,
    second: Result<ValueView, ErrorView>,
)
    requires
        deterministic(ops),
        applies_unary(operator, value, pos, ops, first),
        applies_unary(operator, value, pos, ops, second),
    ensures
        first == second,
{
}

/// A comparison of two reals for equality has one result.
pub proof fn lemma_close_determined<F: Fn(Operation) -> Real>(ops: &F, x: Real, y: Real, first: bool, second: bool)
    requires
        deterministic(ops),
        close(ops, x, y, first),
        close(ops, x, y, second),
    ensures
        first == second,
{
    let d1 = choose|difference: Real|
        #[trigger] answers(ops, Operation::Binary(BinaryFunction::Sub, x, y), difference) && first
            == difference.absolute().less_or_equal(Real::of_bits(TOLERANCE_BITS));
    let d2 = choose|difference: Real|
        #[trigger] answers(ops, Operation::Binary(BinaryFunction::Sub, x, y), difference) && second
            == difference.absolute().less_or_equal(Real::of_bits(TOLERANCE_BITS));
    assert(d1 == d2);
}

/// A comparison of two reals for inequality has one result.
pub proof fn lemma_apart_determined<F: Fn(Operation) -> Real>(ops: &F, x: Real, y: Real, first: bool, second: bool)
    requires
        deterministic(ops),
        apart(ops, x, y, first),
        apart(ops, x, y, second),
    ensures
        first == second,
{
    let d1 = choose|difference: Real|
        #[trigger] answers(ops, Operation::Binary(BinaryFunction::Sub, x, y), difference) && first
            == Real::of_bits(TOLERANCE_BITS).less(difference.absolute());
    let d2 = choose|difference: Real|
        #[trigger] answers(ops, Operation::Binary(BinaryFunction::Sub, x, y), difference) && second
            == Real::of_bits(TOLERANCE_BITS).less(difference.absolute());
    assert(d1 == d2);
}

/// A binary operator has one result on two values.
pub proof fn lemma_binary_determined<F: Fn(Operation) -> Real>(
    operator: BinaryOperator,
    left: ValueView,
    right: ValueView,
    pos: Pos,
    ops: &F,
    first: Result<ValueView, ErrorView>,
    second: Result<ValueView, ErrorView>,
)
    requires
        deterministic(ops),
        applies_binary(operator, left, right, pos, ops, first),
        applies_binary(operator, left, right, pos, ops, second),
    ensures
        first == second,
{
    match (left, right) {
        (ValueView::Sound(sound), ValueView::Real(t)) => {
            if operator == BinaryOperator::LeftShift {
                lemma_shift_determined(sound, t.negated(), ops, first->Ok_0->Sound_0, second->Ok_0->Sound_0);
            } else if operator == BinaryOperator::RightShift {
                lemma_shift_determined(sound, t, ops, first->Ok_0->Sound_0, second->Ok_0->Sound_0);
            }
        },
        (ValueView::Real(x), ValueView::Real(y)) => {
            if operator == BinaryOperator::Equal {
                lemma_close_determined(ops, x, y, first->Ok_0->Bool_0, second->Ok_0->Bool_0);
            } else if operator == BinaryOperator::NotEqual {
                lemma_apart_determined(ops, x, y, first->Ok_0->Bool_0, second->Ok_0->Bool_0);
            }
        },
        _ => {},
    }
}

/// A function has one result on its bindings.
pub proof fn lemma_invocation_determined<F: Fn(Operation) -> Real>(
    function: Function,
    bindings: BindingsView,
    ops: &F,
    first: ValueView,
    second: ValueView,
)
    requires
        deterministic(ops),
        function.invoked(bindings, ops, first),
        function.invoked(bindings, ops, second),
    ensures
        first == second,
{
    match function {
        Function::Linear(_) => {
            let r1 = choose|rise: Real|
                #[trigger] answers(
                    ops,
                    Operation::Binary(
                        BinaryFunction::Sub,
                        bindings.positional[1]->Real_0,
                        bindings.positional[0]->Real_0,
                    ),
                    rise,
                ) && answers(
                    ops,
                    Operation::Binary(BinaryFunction::Div, rise, bindings.named[0].1->Real_0),
                    first->Sound_0->Linear_slope,
                );
            let r2 = choose|rise: Real|
                #[trigger] answers(
                    ops,
                    Operation::Binary(
                        BinaryFunction::Sub,
                        bindings.positional[1]->Real_0,
                        bindings.positional[0]->Real_0,
                    ),
                    rise,
                ) && answers(
                    ops,
                    Operation::Binary(BinaryFunction::Div, rise, bindings.named[0].1->Real_0),
                    second->Sound_0->Linear_slope,
                );
            assert(r1 == r2);
        },
        _ => {},
    }
}

/// A call has one outcome.
pub proof fn lemma_call_determined<F: Fn(Operation) -> Real>(
    callee: ValueView,
    values: Seq<ValueView>,
    pos: Pos,
    ops: &F,
    before: Seq<RecordingView>,
    first: Evaluation,
    second: Evaluation,
)
    requires
        deterministic(ops),
        called(callee, values, pos, ops, before, first),
        called(callee, values, pos, ops, before, second),
    ensures
        first == second,
{
    match callee {
        ValueView::Function(function) => {
            if first.value is Some && first.value->Some_0 is Ok && second.value is Some && second.value->Some_0
                is Ok {
                lemma_invocation_determined(
                    function,
                    crate::evaluate::bound(function.slots(), values),
                    ops,
                    first.value->Some_0->Ok_0,
                    second.value->Some_0->Ok_0,
                );
            }
        },
        _ => {},
    }
}

/// The evaluation of an expression has one outcome.
pub proof fn lemma_evaluation_determined<F: Fn(Operation) -> Real>(
    expression: ExpressionView,
    variables: Map<Seq<char>, ValueView>,
    ops: &F,
    before: Seq<RecordingView>,
    first: Evaluation,
    second: Evaluation,
)
    requires
        deterministic(ops),
        evaluates(expression, variables, ops, before, first),
        evaluates(expression, variables, ops, before, second),
    ensures
        first == second,
    decreases expression,
{
    match expression.0 {
        Some(node) => {
            lemma_node_determined(node, variables, ops, before, first, second);
        },
        None => {},
    }
}

/// The evaluation of the first `n` arguments of a call has one outcome.
pub proof fn lemma_arguments_determined<F: Fn(Operation) -> Real>(
    arguments: Seq<ExpressionView>,
    variables: Map<Seq<char>, ValueView>,
    ops: &F,
    before: Seq<RecordingView>,
    n: nat,
    first: ArgumentsEvaluation,
    second: ArgumentsEvaluation,
)
    requires
        deterministic(ops),
        arguments_evaluate(arguments, variables, ops, before, n, first),
        arguments_evaluate(arguments, variables, ops, before, n, second),
    ensures
        first == second,
    decreases arguments, n,
{
    if !(n == 0 || n > arguments.len()) {
        let (s1, i1) = choose|so_far: ArgumentsEvaluation, item: Evaluation|
            #![trigger extended(so_far, item)]
            {
                &&& arguments_evaluate(arguments, variables, ops, before, (n - 1) as nat, so_far)
                &&& so_far.values is Ok ==> evaluates(arguments[n - 1], variables, ops, so_far.recordings, item)
                &&& first == extended(so_far, item)
            };
        let (s2, i2) = choose|so_far: ArgumentsEvaluation, item: Evaluation|
            #![trigger extended(so_far, item)]
            {
                &&& arguments_evaluate(arguments, variables, ops, before, (n - 1) as nat, so_far)
                &&& so_far.values is Ok ==> evaluates(arguments[n - 1], variables, ops, so_far.recordings, item)
                &&& second == extended(so_far, item)
            };
        lemma_arguments_determined(arguments, variables, ops, before, (n - 1) as nat, s1, s2);
        if s1.values is Ok {
            lemma_evaluation_determined(arguments[n - 1], variables, ops, s1.recordings, i1, i2);
        }
    }
}

/// The evaluation of a node has one outcome.
pub proof fn lemma_node_determined<F: Fn(Operation) -> Real>(
    node: PosNodeView,
    variables: Map<Seq<char>, ValueView>,
    ops: &F,
    before: Seq<RecordingView>,
    a: Evaluation,
    b: Evaluation,
)
    requires
        deterministic(ops),
        node_evaluates(node, variables, ops, before, a),
        node_evaluates(node, variables, ops, before, b),
    ensures
        a == b,
    decreases node,
{
    let pos = node.pos;
    match node.node {
        NodeView::Member(object, name) => {
            let i1 = choose|inner: Evaluation|
                #![trigger forced(inner.value, pos)]
                {
                    &&& evaluates(*object, variables, ops, before, inner)
                    &&& a.recordings == inner.recordings
                    &&& a.value == Some(
                        match forced(inner.value, pos) {
                            Err(error) => Err::<ValueView, ErrorView>(error),
                            Ok(value) => Err::<ValueView, ErrorView>(
                                ErrorView::TypeMismatch(Operator::Member, value, None, pos),
                            ),
                        },
                    )
                };
            let i2 = choose|inner: Evaluation|
                #![trigger forced(inner.value, pos)]
                {
                    &&& evaluates(*object, variables, ops, before, inner)
                    &&& b.recordings == inner.recordings
                    &&& b.value == Some(
                        match forced(inner.value, pos) {
                            Err(error) => Err::<ValueView, ErrorView>(error),
                            Ok(value) => Err::<ValueView, ErrorView>(
                                ErrorView::TypeMismatch(Operator::Member, value, None, pos),
                            ),
                        },
                    )
                };
            lemma_evaluation_determined(*object, variables, ops, before, i1, i2);
        },
        NodeView::Unary(operator, operand) => {
            let i1 = choose|inner: Evaluation|
                #![trigger forced(inner.value, pos)]
                {
                    &&& evaluates(*operand, variables, ops, before, inner)
                    &&& a.recordings == inner.recordings
                    &&& a.value is Some
                    &&& match forced(inner.value, pos) {
                        Err(error) => a.value == Some(Err::<ValueView, ErrorView>(error)),
                        Ok(value) => applies_unary(operator, value, pos, ops, a.value->Some_0),
                    }
                };
            let i2 = choose|inner: Evaluation|
                #![trigger forced(inner.value, pos)]
                {
                    &&& evaluates(*operand, variables, ops, before, inner)
                    &&& b.recordings == inner.recordings
                    &&& b.value is Some
                    &&& match forced(inner.value, pos) {
                        Err(error) => b.value == Some(Err::<ValueView, ErrorView>(error)),
                        Ok(value) => applies_unary(operator, value, pos, ops, b.value->Some_0),
                    }
                };
            lemma_evaluation_determined(*operand, variables, ops, before, i1, i2);
            if forced(i1.value, pos) is Ok {
                lemma_unary_determined(
                    operator,
                    forced(i1.value, pos)->Ok_0,
                    pos,
                    ops,
                    a.value->Some_0,
                    b.value->Some_0,
                );
            }
        },
        NodeView::Binary(operator, left, right) => {
            let first = choose|first: Evaluation|
                #![trigger forced(first.value, pos)]
                {
                    &&& evaluates(*left, variables, ops, before, first)
                    &&& a.value is Some
                    &&& match forced(first.value, pos) {
                        Err(error) => a == (Evaluation {
                            value: Some(Err(error)),
                            recordings: first.recordings,
                        }),
                        Ok(value) => if decides(operator, value) {
                            a == (Evaluation { value: Some(decided(operator, value, pos)), recordings: first.recordings })
                        } else {
                            exists|second: Evaluation|
                                #![trigger forced(second.value, pos)]
                                {
                                    &&& evaluates(*right, variables, ops, first.recordings, second)
                                    &&& a.recordings == second.recordings
                                    &&& match forced(second.value, pos) {
                                        Err(error) => a.value == Some(Err::<ValueView, ErrorView>(error)),
                                        Ok(other) => if operator == BinaryOperator::And || operator
                                            == BinaryOperator::Or {
                                            a.value == Some(concluded(operator, value, other, pos))
                                        } else {
                                            applies_binary(operator, value, other, pos, ops, a.value->Some_0)
                                        },
                                    }
                                }
                        },
                    }
                };
            let first_b = choose|first_b: Evaluation|
                #![trigger forced(first_b.value, pos)]
                {
                    &&& evaluates(*left, variables, ops, before, first_b)
                    &&& b.value is Some
                    &&& match forced(first_b.value, pos) {
                        Err(error) => b == (Evaluation {
                            value: Some(Err(error)),
                            recordings: first_b.recordings,
                        }),
                        Ok(value) => if decides(operator, value) {
                            b == (Evaluation { value: Some(decided(operator, value, pos)), recordings: first_b.recordings })
                        } else {
                            exists|second: Evaluation|
                                #![trigger forced(second.value, pos)]
                                {
                                    &&& evaluates(*right, variables, ops, first_b.recordings, second)
                                    &&& b.recordings == second.recordings
                                    &&& match forced(second.value, pos) {
                                        Err(error) => b.value == Some(Err::<ValueView, ErrorView>(error)),
                                        Ok(other) => if operator == BinaryOperator::And || operator
                                            == BinaryOperator::Or {
                                            b.value == Some(concluded(operator, value, other, pos))
                                        } else {
                                            applies_binary(operator, value, other, pos, ops, b.value->Some_0)
                                        },
                                    }
                                }
                        },
                    }
                };
            lemma_evaluation_determined(*left, variables, ops, before, first, first_b);
            match forced(first.value, pos) {
                Err(error) => {},
                Ok(value) => {
                    if !decides(operator, value) {
                        let s1 = choose|second: Evaluation|
                        #![trigger forced(second.value, pos)]
                        {
                            &&& evaluates(*right, variables, ops, first.recordings, second)
                            &&& a.recordings == second.recordings
                            &&& match forced(second.value, pos) {
                                Err(error) => a.value == Some(Err::<ValueView, ErrorView>(error)),
                                Ok(other) => if operator == BinaryOperator::And || operator
                                    == BinaryOperator::Or {
                                    a.value == Some(concluded(operator, value, other, pos))
                                } else {
                                    applies_binary(operator, value, other, pos, ops, a.value->Some_0)
                                },
                            }
                        };
                        let s2 = choose|second: Evaluation|
                        #![trigger forced(second.value, pos)]
                        {
                            &&& evaluates(*right, variables, ops, first.recordings, second)
                            &&& b.recordings == second.recordings
                            &&& match forced(second.value, pos) {
                                Err(error) => b.value == Some(Err::<ValueView, ErrorView>(error)),
                                Ok(other) => if operator == BinaryOperator::And || operator
                                    == BinaryOperator::Or {
                                    b.value == Some(concluded(operator, value, other, pos))
                                } else {
                                    applies_binary(operator, value, other, pos, ops, b.value->Some_0)
                                },
                            }
                        };
                        lemma_evaluation_determined(*right, variables, ops, first.recordings, s1, s2);
                        match forced(s1.value, pos) {
                            Err(error) => {},
                            Ok(other) => {
                                if !(operator == BinaryOperator::And || operator == BinaryOperator::Or) {
                                    lemma_binary_determined(
                                        operator,
                                        value,
                                        other,
                                        pos,
                                        ops,
                                        a.value->Some_0,
                                        b.value->Some_0,
                                    );
                                }
                            },
                        }
                    }
                },
            }
        },
        NodeView::Invocation(callee, arguments) => {
            let target = choose|target: Evaluation|
                #![trigger forced(target.value, pos)]
                {
                    &&& evaluates(*callee, variables, ops, before, target)
                    &&& a.value is Some
                    &&& match forced(target.value, pos) {
                        Err(error) => a == (Evaluation {
                            value: Some(Err(error)),
                            recordings: target.recordings,
                        }),
                        Ok(function) => if callable(function) {
                            exists|given: ArgumentsEvaluation|
                                #![trigger given.values]
                                {
                                    &&& arguments_evaluate(
                                        arguments,
                                        variables,
                                        ops,
                                        target.recordings,
                                        arguments.len(),
                                        given,
                                    )
                                    &&& match given.values {
                                        Err(error) => a == (Evaluation {
                                            value: Some(Err(error)),
                                            recordings: given.recordings,
                                        }),
                                        Ok(values) => called(function, values, pos, ops, given.recordings, a),
                                    }
                                }
                        } else {
                            a == (Evaluation {
                                value: Some(Err(ErrorView::NotAFunction(pos))),
                                recordings: target.recordings,
                            })
                        },
                    }
                };
            let target_b = choose|target_b: Evaluation|
                #![trigger forced(target_b.value, pos)]
                {
                    &&& evaluates(*callee, variables, ops, before, target_b)
                    &&& b.value is Some
                    &&& match forced(target_b.value, pos) {
                        Err(error) => b == (Evaluation {
                            value: Some(Err(error)),
                            recordings: target_b.recordings,
                        }),
                        Ok(function) => if callable(function) {
                            exists|given: ArgumentsEvaluation|
                                #![trigger given.values]
                                {
                                    &&& arguments_evaluate(
                                        arguments,
                                        variables,
                                        ops,
                                        target_b.recordings,
                                        arguments.len(),
                                        given,
                                    )
                                    &&& match given.values {
                                        Err(error) => b == (Evaluation {
                                            value: Some(Err(error)),
                                            recordings: given.recordings,
                                        }),
                                        Ok(values) => called(function, values, pos, ops, given.recordings, b),
                                    }
                                }
                        } else {
                            b == (Evaluation {
                                value: Some(Err(ErrorView::NotAFunction(pos))),
                                recordings: target_b.recordings,
                            })
                        },
                    }
                };
            lemma_evaluation_determined(*callee, variables, ops, before, target, target_b);
            match forced(target.value, pos) {
                Err(error) => {},
                Ok(function) => {
                    if callable(function) {
                        let g1 = choose|given: ArgumentsEvaluation|
                        #![trigger given.values]
                        {
                            &&& arguments_evaluate(
                                arguments,
                                variables,
                                ops,
                                target.recordings,
                                arguments.len(),
                                given,
                            )
                            &&& match given.values {
                                Err(error) => a == (Evaluation {
                                    value: Some(Err(error)),
                                    recordings: given.recordings,
                                }),
                                Ok(values) => called(function, values, pos, ops, given.recordings, a),
                            }
                        };
                        let g2 = choose|given: ArgumentsEvaluation|
                        #![trigger given.values]
                        {
                            &&& arguments_evaluate(
                                arguments,
                                variables,
                                ops,
                                target.recordings,
                                arguments.len(),
                                given,
                            )
                            &&& match given.values {
                                Err(error) => b == (Evaluation {
                                    value: Some(Err(error)),
                                    recordings: given.recordings,
                                }),
                                Ok(values) => called(function, values, pos, ops, given.recordings, b),
                            }
                        };
                        lemma_arguments_determined(
                            arguments,
                            variables,
                            ops,
                            target.recordings,
                            arguments.len(),
                            g1,
                            g2,
                        );
                        match g1.values {
                            Err(error) => {},
                            Ok(values) => {
                                lemma_call_determined(function, values, pos, ops, g1.recordings, a, b);
                            },
                        }
                    }
                },
            }
        },
        NodeView::Group(inner) => {
            let c1 = choose|content: Evaluation|
                #![trigger forced(content.value, pos)]
                {
                    &&& evaluates(*inner, variables, ops, before, content)
                    &&& a.recordings == content.recordings
                    &&& a.value == Some(forced(content.value, pos))
                };
            let c2 = choose|content: Evaluation|
                #![trigger forced(content.value, pos)]
                {
                    &&& evaluates(*inner, variables, ops, before, content)
                    &&& b.recordings == content.recordings
                    &&& b.value == Some(forced(content.value, pos))
                };
            lemma_evaluation_determined(*inner, variables, ops, before, c1, c2);
        },
        _ => {},
    }
}

} // verus!
