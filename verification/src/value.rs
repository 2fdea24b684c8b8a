//! The values of the language, signals among them.

use vstd::prelude::*;
use crate::function::{Function, PrimitiveRealFunction1, PrimitiveRealFunction2, RealFunction};
use crate::number::{BinaryFunction, UnaryFunction};
use crate::number::Real;

verus! {

/// A runtime value.
#[derive(Debug, PartialEq)]
pub enum Value {
    Real(Real),
    Bool(bool),
    Sound(Sound),
    String(String),
    Function(Function),
    RealFunction(RealFunction),
}

/// A signal: a real-valued function of time, as an expression tree.
#[derive(Debug, PartialEq)]
pub enum Sound {
    /// The same value at every time.
    Const(Real),
    /// `slope * t + intercept`.
    Linear { slope: Real, intercept: Real },
    /// `sin(tau * frequency * t + phase)`.
    Sin { frequency: Real, phase: Real },
    /// `intercept * exp(coefficient * t)`.
    Exp { coefficient: Real, intercept: Real },
    /// Noise: a fresh random number at every sample.
    Rand,
    Minus(Box<Sound>),
    Reciprocal(Box<Sound>),
    Add(Box<Sound>, Box<Sound>),
    Sub(Box<Sound>, Box<Sound>),
    Mul(Box<Sound>, Box<Sound>),
    Div(Box<Sound>, Box<Sound>),
    Pow(Box<Sound>, Box<Sound>),
    /// A real function applied, sample by sample, to arguments of which some
    /// are signals: the positional arguments, then the named ones.
    Function(RealFunction, Vec<Value>, Vec<(String, Value)>),
}

/// What a [`Value`] holds, with sequences in place of strings and vectors.
pub enum ValueView {
    Real(Real),
    Bool(bool),
    Sound(SoundView),
    String(Seq<char>),
    Function(Function),
    RealFunction(RealFunction),
}

/// What a [`Sound`] holds, with sequences in place of strings and vectors.
pub enum SoundView {
    Const(Real),
    Linear { slope: Real, intercept: Real },
    Sin { frequency: Real, phase: Real },
    Exp { coefficient: Real, intercept: Real },
    Rand,
    Minus(Box<SoundView>),
    Reciprocal(Box<SoundView>),
    Add(Box<SoundView>, Box<SoundView>),
    Sub(Box<SoundView>, Box<SoundView>),
    Mul(Box<SoundView>, Box<SoundView>),
    Div(Box<SoundView>, Box<SoundView>),
    Pow(Box<SoundView>, Box<SoundView>),
    Function(RealFunction, Seq<ValueView>, Seq<(Seq<char>, ValueView)>),
}

impl Value {
    pub open spec fn view(&self) -> ValueView
        decreases self,
    {
        match self {
            Value::Real(x) => ValueView::Real(*x),
            Value::Bool(b) => ValueView::Bool(*b),
            Value::Sound(sound) => ValueView::Sound(sound.view()),
            Value::String(s) => ValueView::String(s@),
            Value::Function(f) => ValueView::Function(*f),
            Value::RealFunction(f) => ValueView::RealFunction(*f),
        }
    }
}

impl Sound {
    pub open spec fn view(&self) -> SoundView
        decreases self,
    {
        match self {
            Sound::Const(value) => SoundView::Const(*value),
            Sound::Linear { slope, intercept } => SoundView::Linear { slope: *slope, intercept: *intercept },
            Sound::Sin { frequency, phase } => SoundView::Sin { frequency: *frequency, phase: *phase },
            Sound::Exp { coefficient, intercept } => SoundView::Exp {
                coefficient: *coefficient,
                intercept: *intercept,
            },
            Sound::Rand => SoundView::Rand,
            Sound::Minus(sound) => SoundView::Minus(Box::new(sound.view())),
            Sound::Reciprocal(sound) => SoundView::Reciprocal(Box::new(sound.view())),
            Sound::Add(left, right) => SoundView::Add(Box::new(left.view()), Box::new(right.view())),
            Sound::Sub(left, right) => SoundView::Sub(Box::new(left.view()), Box::new(right.view())),
            Sound::Mul(left, right) => SoundView::Mul(Box::new(left.view()), Box::new(right.view())),
            Sound::Div(left, right) => SoundView::Div(Box::new(left.view()), Box::new(right.view())),
            Sound::Pow(left, right) => SoundView::Pow(Box::new(left.view()), Box::new(right.view())),
            Sound::Function(function, positional, named) => SoundView::Function(
                *function,
                Seq::new(
                    positional.len() as nat,
                    |i: int|
                        if 0 <= i < positional.len() {
                            positional[i].view()
                        } else {
                            ValueView::Bool(false)
                        },
                ),
                Seq::new(
                    named.len() as nat,
                    |i: int|
                        if 0 <= i < named.len() {
                            (named[i].0@, named[i].1.view())
                        } else {
                            (Seq::empty(), ValueView::Bool(false))
                        },
                ),
            ),
        }
    }
}

impl Value {
    /// The value that is the built-in real function of one argument.
    pub fn real_function_1(function: UnaryFunction) -> (result: Value)
        ensures
            result@ == ValueView::RealFunction(RealFunction::Unary(PrimitiveRealFunction1(function))),
    {
        Value::RealFunction(RealFunction::Unary(PrimitiveRealFunction1::new(function)))
    }

    /// The value that is the built-in real function of two arguments.
    pub fn real_function_2(function: BinaryFunction) -> (result: Value)
        ensures
            result@ == ValueView::RealFunction(RealFunction::Binary(PrimitiveRealFunction2(function))),
    {
        Value::RealFunction(RealFunction::Binary(PrimitiveRealFunction2::new(function)))
    }

    /// A copy with the same contents.
    pub fn duplicate(&self) -> (result: Value)
        ensures
            result@ == self@,
        decreases self,
    {
        match self {
            Value::Real(x) => Value::Real(*x),
            Value::Bool(b) => Value::Bool(*b),
            Value::Sound(sound) => Value::Sound(sound.duplicate()),
            Value::String(s) => Value::String(s.clone()),
            Value::Function(f) => Value::Function(*f),
            Value::RealFunction(f) => Value::RealFunction(*f),
        }
    }
}

impl Sound {
    /// A copy with the same contents.
    pub fn duplicate(&self) -> (result: Sound)
        ensures
            result@ == self@,
        decreases self,
    {
        match self {
            Sound::Const(value) => Sound::Const(*value),
            Sound::Linear { slope, intercept } => Sound::Linear { slope: *slope, intercept: *intercept },
            Sound::Sin { frequency, phase } => Sound::Sin { frequency: *frequency, phase: *phase },
            Sound::Exp { coefficient, intercept } => Sound::Exp {
                coefficient: *coefficient,
                intercept: *intercept,
            },
            Sound::Rand => Sound::Rand,
            Sound::Minus(sound) => Sound::Minus(Box::new(sound.duplicate())),
            Sound::Reciprocal(sound) => Sound::Reciprocal(Box::new(sound.duplicate())),
            Sound::Add(left, right) => Sound::Add(Box::new(left.duplicate()), Box::new(right.duplicate())),
            Sound::Sub(left, right) => Sound::Sub(Box::new(left.duplicate()), Box::new(right.duplicate())),
            Sound::Mul(left, right) => Sound::Mul(Box::new(left.duplicate()), Box::new(right.duplicate())),
            Sound::Div(left, right) => Sound::Div(Box::new(left.duplicate()), Box::new(right.duplicate())),
            Sound::Pow(left, right) => Sound::Pow(Box::new(left.duplicate()), Box::new(right.duplicate())),
            Sound::Function(function, positional, named) => {
                let mut positional_copy: Vec<Value> = Vec::new();
                let mut i: usize = 0;
                while i < positional.len()
                    invariant
                        i <= positional.len(),
                        positional_copy.len() == i,
                        forall|k: int| 0 <= k < i ==> positional_copy[k]@ == positional[k]@,
                        decreases_to!(self => positional),
                    decreases positional.len() - i,
                {
                    positional_copy.push(positional[i].duplicate());
                    i += 1;
                }
                let mut named_copy: Vec<(String, Value)> = Vec::new();
                let mut j: usize = 0;
                while j < named.len()
                    invariant
                        j <= named.len(),
                        named_copy.len() == j,
                        forall|k: int|
                            0 <= k < j ==> named_copy[k].0@ == named[k].0@ && named_copy[k].1@
                                == named[k].1@,
                        decreases_to!(self => named),
                    decreases named.len() - j,
                {
                    named_copy.push((named[j].0.clone(), named[j].1.duplicate()));
                    j += 1;
                }
                let result = Sound::Function(*function, positional_copy, named_copy);
                assert(result@ == self@) by {
                    assert(result@->Function_1 =~= self@->Function_1);
                    assert(result@->Function_2 =~= self@->Function_2);
                }
                result
            },
        }
    }
}

} // verus!
