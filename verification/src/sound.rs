//! The signal algebra: time shift of a signal, stated over the arithmetic
//! service.

use vstd::prelude::*;
use crate::number::{answers, binary, serves_all, unary, BinaryFunction, Operation, Real, UnaryFunction, TAU_BITS};
use crate::value::{Sound, SoundView, Value, ValueView};

verus! {

/// `out` is a possible value of `a * b + c`: the product is asked first, then
/// the sum.
pub open spec fn product_sum<F: Fn(Operation) -> Real>(ops: &F, a: Real, b: Real, c: Real, out: Real) -> bool {
    exists|p: Real|
        #[trigger] answers(ops, Operation::Binary(BinaryFunction::Mul, a, b), p) && answers(
            ops,
            Operation::Binary(BinaryFunction::Add, p, c),
            out,
        )
}

/// `out` is a possible phase of an oscillator of this frequency and phase
/// after a shift by `t`: `tau * frequency * t + phase`, asked from left to
/// right.
pub open spec fn shifted_phase<F: Fn(Operation) -> Real>(
    ops: &F,
    frequency: Real,
    phase: Real,
    t: Real,
    out: Real,
) -> bool {
    exists|turns: Real|
        #[trigger] answers(
            ops,
            Operation::Binary(BinaryFunction::Mul, Real::of_bits(TAU_BITS), frequency),
            turns,
        ) && product_sum(ops, turns, t, phase, out)
}

/// `out` is a possible intercept of an exponential after a shift by `t`:
/// `intercept * exp(coefficient * t)`.
pub open spec fn shifted_intercept<F: Fn(Operation) -> Real>(
    ops: &F,
    coefficient: Real,
    intercept: Real,
    t: Real,
    out: Real,
) -> bool {
    exists|exponent: Real, growth: Real|
        #![trigger answers(ops, Operation::Binary(BinaryFunction::Mul, coefficient, t), exponent), answers(ops, Operation::Unary(UnaryFunction::Exp, exponent), growth)]
        answers(ops, Operation::Binary(BinaryFunction::Mul, coefficient, t), exponent) && answers(
            ops,
            Operation::Unary(UnaryFunction::Exp, exponent),
            growth,
        ) && answers(ops, Operation::Binary(BinaryFunction::Mul, intercept, growth), out)
}

/// `out` is a possible result of shifting the signal `sound` by `t`, so that
/// `out` at time `x` is `sound` at time `x + t`.
///
/// The closed-form leaves get new parameters from the arithmetic service;
/// noise and constants stay as they are; every combinator is rebuilt around
/// its shifted children; of the arguments of a function signal exactly the
/// signals are shifted.
pub open spec fn shifted<F: Fn(Operation) -> Real>(sound: SoundView, t: Real, ops: &F, out: SoundView) -> bool
    decreases sound,
{
    match sound {
        SoundView::Const(value) => out == sound,
        SoundView::Linear { slope, intercept } => {
            &&& out is Linear
            &&& out->Linear_slope == slope
            &&& product_sum(ops, slope, t, intercept, out->Linear_intercept)
        },
        SoundView::Sin { frequency, phase } => {
            &&& out is Sin
            &&& out->Sin_frequency == frequency
            &&& shifted_phase(ops, frequency, phase, t, out->Sin_phase)
        },
        SoundView::Exp { coefficient, intercept } => {
            &&& out is Exp
            &&& out->Exp_coefficient == coefficient
            &&& shifted_intercept(ops, coefficient, intercept, t, out->Exp_intercept)
        },
        SoundView::Rand => out == sound,
        SoundView::Minus(inner) => out is Minus && shifted(*inner, t, ops, *out->Minus_0),
        SoundView::Reciprocal(inner) => out is Reciprocal && shifted(*inner, t, ops, *out->Reciprocal_0),
        SoundView::Add(left, right) => {
            &&& out is Add
            &&& shifted(*left, t, ops, *out->Add_0)
            &&& shifted(*right, t, ops, *out->Add_1)
        },
        SoundView::Sub(left, right) => {
            &&& out is Sub
            &&& shifted(*left, t, ops, *out->Sub_0)
            &&& shifted(*right, t, ops, *out->Sub_1)
        },
        SoundView::Mul(left, right) => {
            &&& out is Mul
            &&& shifted(*left, t, ops, *out->Mul_0)
            &&& shifted(*right, t, ops, *out->Mul_1)
        },
        SoundView::Div(left, right) => {
            &&& out is Div
            &&& shifted(*left, t, ops, *out->Div_0)
            &&& shifted(*right, t, ops, *out->Div_1)
        },
        SoundView::Pow(left, right) => {
            &&& out is Pow
            &&& shifted(*left, t, ops, *out->Pow_0)
            &&& shifted(*right, t, ops, *out->Pow_1)
        },
        SoundView::Function(function, positional, named) => {
            &&& out is Function
            &&& out->Function_0 == function
            &&& out->Function_1.len() == positional.len()
            &&& out->Function_2.len() == named.len()
            &&& forall|i: int|
                0 <= i < positional.len() ==> value_shifted(positional[i], t, ops, #[trigger] out->Function_1[i])
            &&& forall|i: int|
                0 <= i < named.len() ==> (#[trigger] out->Function_2[i]).0 == named[i].0
                    && value_shifted(named[i].1, t, ops, out->Function_2[i].1)
        },
    }
}

/// `out` is a possible result of shifting an argument of a function signal:
/// a signal is shifted, any other value is time-invariant and stays.
pub open spec fn value_shifted<F: Fn(Operation) -> Real>(value: ValueView, t: Real, ops: &F, out: ValueView) -> bool
    decreases value,
{
    match value {
        ValueView::Sound(sound) => out is Sound && shifted(sound, t, ops, out->Sound_0),
        _ => out == value,
    }
}

impl Value {
    /// Shifts the value if it is a signal; every other value is
    /// time-invariant and comes back as it is.
    pub fn shift<F: Fn(Operation) -> Real>(self, t: Real, ops: &F) -> (result: Value)
        requires
            serves_all(ops),
        ensures
            value_shifted(self@, t, ops, result@),
        decreases self,
    {
        match self {
            Value::Sound(sound) => Value::Sound(sound.shift(t, ops)),
            other => other,
        }
    }
}

impl Sound {
    /// The signal translated in time by `t`: the result at time `x` is
    /// `self` at time `x + t`.
    pub fn shift<F: Fn(Operation) -> Real>(self, t: Real, ops: &F) -> (result: Sound)
        requires
            serves_all(ops),
        ensures
            shifted(self@, t, ops, result@),
        decreases self,
    {
        match self {
            Sound::Const(value) => Sound::Const(value),
            Sound::Linear { slope, intercept } => {
                let product = binary(ops, BinaryFunction::Mul, slope, t);
                Sound::Linear { slope, intercept: binary(ops, BinaryFunction::Add, product, intercept) }
            },
            Sound::Sin { frequency, phase } => {
                let turns = binary(ops, BinaryFunction::Mul, Real::tau(), frequency);
                let product = binary(ops, BinaryFunction::Mul, turns, t);
                Sound::Sin { frequency, phase: binary(ops, BinaryFunction::Add, product, phase) }
            },
            Sound::Exp { coefficient, intercept } => {
                let exponent = binary(ops, BinaryFunction::Mul, coefficient, t);
                let growth = unary(ops, UnaryFunction::Exp, exponent);
                Sound::Exp { coefficient, intercept: binary(ops, BinaryFunction::Mul, intercept, growth) }
            },
            Sound::Rand => Sound::Rand,
            Sound::Minus(sound) => Sound::Minus(Box::new(sound.shift(t, ops))),
            Sound::Reciprocal(sound) => Sound::Reciprocal(Box::new(sound.shift(t, ops))),
            Sound::Add(left, right) => Sound::Add(Box::new(left.shift(t, ops)), Box::new(right.shift(t, ops))),
            Sound::Sub(left, right) => Sound::Sub(Box::new(left.shift(t, ops)), Box::new(right.shift(t, ops))),
            Sound::Mul(left, right) => Sound::Mul(Box::new(left.shift(t, ops)), Box::new(right.shift(t, ops))),
            Sound::Div(left, right) => Sound::Div(Box::new(left.shift(t, ops)), Box::new(right.shift(t, ops))),
            Sound::Pow(left, right) => Sound::Pow(Box::new(left.shift(t, ops)), Box::new(right.shift(t, ops))),
            Sound::Function(function, positional, named) => {
                let ghost old_positional = positional@;
                let ghost old_named = named@;
                let mut shifted_positional: Vec<Value> = Vec::new();
                for value in iter: positional
                    invariant
                        serves_all(ops),
                        self matches Sound::Function(_, p, _) && p@ == old_positional,
                        iter.seq() == old_positional,
                        shifted_positional.len() == iter.index(),
                        forall|k: int|
                            0 <= k < iter.index() ==> value_shifted(
                                old_positional[k]@,
                                t,
                                ops,
                                #[trigger] shifted_positional[k]@,
                            ),
                {
                    shifted_positional.push(value.shift(t, ops));
                }
                let mut shifted_named: Vec<(String, Value)> = Vec::new();
                for pair in iter: named
                    invariant
                        serves_all(ops),
                        self matches Sound::Function(_, _, n) && n@ == old_named,
                        iter.seq() == old_named,
                        shifted_named.len() == iter.index(),
                        forall|k: int|
                            0 <= k < iter.index() ==> (#[trigger] shifted_named[k]).0@ == old_named[k].0@
                                && value_shifted(old_named[k].1@, t, ops, shifted_named[k].1@),
                {
                    let (name, value) = pair;
                    shifted_named.push((name, value.shift(t, ops)));
                }
                let result = Sound::Function(function, shifted_positional, shifted_named);
                proof {
                    assert forall|i: int| 0 <= i < old_positional.len() implies value_shifted(
                        self@->Function_1[i],
                        t,
                        ops,
                        #[trigger] result@->Function_1[i],
                    ) by {
                        assert(self@->Function_1[i] == old_positional[i]@);
                        assert(result@->Function_1[i] == shifted_positional[i]@);
                    }
                    assert forall|i: int| 0 <= i < old_named.len() implies (#[trigger] result@->Function_2[i]).0
                        == self@->Function_2[i].0 && value_shifted(
                        self@->Function_2[i].1,
                        t,
                        ops,
                        result@->Function_2[i].1,
                    ) by {
                        assert(self@->Function_2[i] == (old_named[i].0@, old_named[i].1@));
                        assert(result@->Function_2[i] == (shifted_named[i].0@, shifted_named[i].1@));
                    }
                }
                result
            },
        }
    }
}

} // verus!
