//! Callable values and the protocol by which arguments are bound to them.

use vstd::prelude::*;
use crate::number::{
    answers, binary, serves_all, unary, BinaryFunction, Operation, Real, UnaryFunction, MINUS_ONE_BITS, ONE_BITS,
    ZERO_BITS,
};
use crate::value::{Sound, SoundView, Value, ValueView};

verus! {

/// A built-in real function of one argument.
#[derive(Clone, Copy, Debug, PartialEq, Eq, Structural, Hash)]
pub struct PrimitiveRealFunction1(pub UnaryFunction);

/// A built-in real function of two arguments.
#[derive(Clone, Copy, Debug, PartialEq, Eq, Structural, Hash)]
pub struct PrimitiveRealFunction2(pub BinaryFunction);

/// The constructor of a sine oscillator from its frequency.
#[derive(Clone, Copy, Debug, PartialEq, Eq, Structural, Hash)]
pub struct Sin;

/// The constructor of an exponential decay from its time constant.
#[derive(Clone, Copy, Debug, PartialEq, Eq, Structural, Hash)]
pub struct Exp;

/// The constructor of a ramp from its value at time zero and its value at
/// the time `t1`.
#[derive(Clone, Copy, Debug, PartialEq, Eq, Structural, Hash)]
pub struct Linear;

/// A callable whose result is a real number.
#[derive(Clone, Copy, Debug, PartialEq, Eq, Structural, Hash)]
pub enum RealFunction {
    Unary(PrimitiveRealFunction1),
    Binary(PrimitiveRealFunction2),
}

/// A callable whose result is any value.
#[derive(Clone, Copy, Debug, PartialEq, Eq, Structural, Hash)]
pub enum Function {
    Sin(Sin),
    Exp(Exp),
    Linear(Linear),
}

impl PrimitiveRealFunction1 {
    pub fn new(function: UnaryFunction) -> (result: PrimitiveRealFunction1)
        ensures
            result == PrimitiveRealFunction1(function),
    {
        PrimitiveRealFunction1(function)
    }
}

impl PrimitiveRealFunction2 {
    pub fn new(function: BinaryFunction) -> (result: PrimitiveRealFunction2)
        ensures
            result == PrimitiveRealFunction2(function),
    {
        PrimitiveRealFunction2(function)
    }
}

impl Sin {
    pub fn new() -> (result: Sin)
        ensures
            result == Sin,
    {
        Sin
    }
}

impl Exp {
    pub fn new() -> (result: Exp)
        ensures
            result == Exp,
    {
        Exp
    }
}

impl Linear {
    pub fn new() -> (result: Linear)
        ensures
            result == Linear,
    {
        Linear
    }
}

impl RealFunction {
    /// The number of arguments that the function takes.
    pub open spec fn arity_spec(self) -> nat {
        match self {
            RealFunction::Unary(_) => 1,
            RealFunction::Binary(_) => 2,
        }
    }

    pub fn arity(self) -> (result: usize)
        ensures
            result == self.arity_spec(),
    {
        match self {
            RealFunction::Unary(_) => 1,
            RealFunction::Binary(_) => 2,
        }
    }

    /// The operation that one application to `arguments` asks of the
    /// arithmetic service.
    pub open spec fn request(self, arguments: Seq<Real>) -> Operation
        recommends
            arguments.len() == self.arity_spec(),
    {
        match self {
            RealFunction::Unary(primitive) => Operation::Unary(primitive.0, arguments[0]),
            RealFunction::Binary(primitive) => Operation::Binary(primitive.0, arguments[0], arguments[1]),
        }
    }

    /// Applies the function to its arguments: one request to the service.
    pub fn apply<F: Fn(Operation) -> Real>(self, arguments: &Vec<Real>, ops: &F) -> (result: Real)
        requires
            serves_all(ops),
            arguments.len() == self.arity_spec(),
        ensures
            answers(ops, self.request(arguments@), result),
    {
        match self {
            RealFunction::Unary(primitive) => unary(ops, primitive.0, arguments[0]),
            RealFunction::Binary(primitive) => binary(ops, primitive.0, arguments[0], arguments[1]),
        }
    }
}

/// A typed slot for one argument of a call, with the value it holds.
#[derive(Debug, PartialEq)]
pub enum Argument {
    Real(Real),
    Boolean(bool),
    Sound(Sound),
    String(String),
}

/// What an [`Argument`] holds, with sequences in place of strings.
pub enum ArgumentView {
    Real(Real),
    Boolean(bool),
    Sound(SoundView),
    String(Seq<char>),
}

impl ArgumentView {
    /// The name of the type that the slot takes.
    pub open spec fn kind_name(self) -> Seq<char> {
        match self {
            ArgumentView::Real(_) => "real"@,
            ArgumentView::Boolean(_) => "boolean"@,
            ArgumentView::Sound(_) => "Sound"@,
            ArgumentView::String(_) => "string"@,
        }
    }

    /// The slot takes the value: both are of the same type.
    pub open spec fn takes(self, value: ValueView) -> bool {
        match (self, value) {
            (ArgumentView::Real(_), ValueView::Real(_)) => true,
            (ArgumentView::Boolean(_), ValueView::Bool(_)) => true,
            (ArgumentView::Sound(_), ValueView::Sound(_)) => true,
            (ArgumentView::String(_), ValueView::String(_)) => true,
            _ => false,
        }
    }

    /// The slot after it has taken the value.
    pub open spec fn filled(self, value: ValueView) -> ArgumentView
        recommends
            self.takes(value),
    {
        match value {
            ValueView::Real(x) => ArgumentView::Real(x),
            ValueView::Bool(b) => ArgumentView::Boolean(b),
            ValueView::Sound(sound) => ArgumentView::Sound(sound),
            ValueView::String(s) => ArgumentView::String(s),
            _ => self,
        }
    }
}

impl Argument {
    pub open spec fn view(&self) -> ArgumentView {
        match self {
            Argument::Real(x) => ArgumentView::Real(*x),
            Argument::Boolean(b) => ArgumentView::Boolean(*b),
            Argument::Sound(sound) => ArgumentView::Sound(sound@),
            Argument::String(s) => ArgumentView::String(s@),
        }
    }

    fn kind_name(&self) -> (result: &'static str)
        ensures
            result@ == self@.kind_name(),
    {
        match self {
            Argument::Real(_) => "real",
            Argument::Boolean(_) => "boolean",
            Argument::Sound(_) => "Sound",
            Argument::String(_) => "string",
        }
    }

    /// Puts the value into the slot if it is of the slot's type; if not, the
    /// slot stays as it is and the value comes back with the name of the
    /// type that was expected.
    pub fn set(&mut self, value: Value) -> (result: Result<(), (&'static str, Value)>)
        ensures
            old(self)@.takes(value@) ==> result is Ok && final(self)@ == old(self)@.filled(value@),
            !old(self)@.takes(value@) ==> final(self)@ == old(self)@ && (result matches Err(pair)
                && pair.0@ == old(self)@.kind_name() && pair.1@ == value@),
    {
        let expected = self.kind_name();
        match self {
            Argument::Real(slot) => match value {
                Value::Real(x) => {
                    *slot = x;
                    Ok(())
                },
                other => Err((expected, other)),
            },
            Argument::Boolean(slot) => match value {
                Value::Bool(b) => {
                    *slot = b;
                    Ok(())
                },
                other => Err((expected, other)),
            },
            Argument::Sound(slot) => match value {
                Value::Sound(sound) => {
                    *slot = sound;
                    Ok(())
                },
                other => Err((expected, other)),
            },
            Argument::String(slot) => match value {
                Value::String(s) => {
                    *slot = s;
                    Ok(())
                },
                other => Err((expected, other)),
            },
        }
    }
}

/// The slots of one call: the positional ones in order, then the named ones
/// with their names.
#[derive(Debug, PartialEq)]
pub struct Bindings {
    pub positional: Vec<Argument>,
    pub named: Vec<(String, Argument)>,
}

/// What a [`Bindings`] holds, with sequences in place of strings and vectors.
pub struct BindingsView {
    pub positional: Seq<ArgumentView>,
    pub named: Seq<(Seq<char>, ArgumentView)>,
}

impl Bindings {
    pub open spec fn view(&self) -> BindingsView {
        BindingsView {
            positional: Seq::new(self.positional.len() as nat, |i: int| self.positional[i]@),
            named: Seq::new(self.named.len() as nat, |i: int| (self.named[i].0@, self.named[i].1@)),
        }
    }
}

impl Function {
    /// The slots that a call of the function fills, each with its default:
    /// zero for every positional slot, one for the time `t1` of a ramp.
    pub open spec fn slots(self) -> BindingsView {
        match self {
            Function::Sin(_) => BindingsView {
                positional: seq![ArgumentView::Real(Real::of_bits(ZERO_BITS))],
                named: seq![],
            },
            Function::Exp(_) => BindingsView {
                positional: seq![ArgumentView::Real(Real::of_bits(ZERO_BITS))],
                named: seq![],
            },
            Function::Linear(_) => BindingsView {
                positional: seq![
                    ArgumentView::Real(Real::of_bits(ZERO_BITS)),
                    ArgumentView::Real(Real::of_bits(ZERO_BITS)),
                ],
                named: seq![("t1"@, ArgumentView::Real(Real::of_bits(ONE_BITS)))],
            },
        }
    }

    /// The bindings have the shape of the function's slots: as many slots,
    /// each of the same type.
    pub open spec fn accepts(self, bindings: BindingsView) -> bool {
        let slots = self.slots();
        &&& bindings.positional.len() == slots.positional.len()
        &&& bindings.named.len() == slots.named.len()
        &&& forall|i: int| 0 <= i < slots.positional.len() ==> (#[trigger] bindings.positional[i]) is Real
        &&& forall|i: int| 0 <= i < slots.named.len() ==> (#[trigger] bindings.named[i]).1 is Real
    }

    /// `out` is a possible result of the function on these bindings.
    ///
    /// An oscillator takes its frequency and starts at phase zero. A decay
    /// with time constant `tau` has the coefficient `-1 / tau` and starts at
    /// one. A ramp from `x0` to `x1` at time `t1` has the slope
    /// `(x1 - x0) / t1` and starts at `x0`.
    pub open spec fn invoked<F: Fn(Operation) -> Real>(self, bindings: BindingsView, ops: &F, out: ValueView) -> bool
        recommends
            self.accepts(bindings),
    {
        match self {
            Function::Sin(_) => out == ValueView::Sound(
                SoundView::Sin {
                    frequency: bindings.positional[0]->Real_0,
                    phase: Real::of_bits(ZERO_BITS),
                },
            ),
            Function::Exp(_) => {
                &&& out is Sound
                &&& out->Sound_0 is Exp
                &&& out->Sound_0->Exp_intercept == Real::of_bits(ONE_BITS)
                &&& answers(
                    ops,
                    Operation::Binary(
                        BinaryFunction::Div,
                        Real::of_bits(MINUS_ONE_BITS),
                        bindings.positional[0]->Real_0,
                    ),
                    out->Sound_0->Exp_coefficient,
                )
            },
            Function::Linear(_) => {
                &&& out is Sound
                &&& out->Sound_0 is Linear
                &&& out->Sound_0->Linear_intercept == bindings.positional[0]->Real_0
                &&& exists|rise: Real|
                    #[trigger] answers(
                        ops,
                        Operation::Binary(
                            BinaryFunction::Sub,
                            bindings.positional[1]->Real_0,
                            bindings.positional[0]->Real_0,
                        ),
                        rise,
                    ) && answers(
                        ops,
                        Operation::Binary(BinaryFunction::Div, rise, bindings.named[0].1->Real_0),
                        out->Sound_0->Linear_slope,
                    )
            },
        }
    }

    /// Fresh slots for one call, each holding its default.
    pub fn arguments(&self) -> (result: Bindings)
        ensures
            result@ == self.slots(),
            self.accepts(result@),
    {
        let result = match self {
            Function::Sin(_) => Bindings { positional: vec![Argument::Real(Real::zero())], named: Vec::new() },
            Function::Exp(_) => Bindings { positional: vec![Argument::Real(Real::zero())], named: Vec::new() },
            Function::Linear(_) => {
                let mut named: Vec<(String, Argument)> = Vec::new();
                named.push(("t1".to_string(), Argument::Real(Real::one())));
                Bindings {
                    positional: vec![Argument::Real(Real::zero()), Argument::Real(Real::zero())],
                    named,
                }
            },
        };
        assert(result@.positional =~= self.slots().positional);
        assert(result@.named =~= self.slots().named);
        result
    }

    /// The value of the function on the bindings.
    pub fn invoke<F: Fn(Operation) -> Real>(&self, bindings: &Bindings, ops: &F) -> (result: Value)
        requires
            serves_all(ops),
            self.accepts(bindings@),
        ensures
            self.invoked(bindings@, ops, result@),
    {
        assert forall|i: int| 0 <= i < bindings.positional.len() implies (#[trigger] bindings.positional[i])@
            == bindings@.positional[i] by {}
        assert forall|i: int| 0 <= i < bindings.named.len() implies (#[trigger] bindings.named[i]).1@
            == bindings@.named[i].1 by {}
        match self {
            Function::Sin(_) => {
                let frequency = real_of(&bindings.positional[0]);
                Value::Sound(Sound::Sin { frequency, phase: Real::zero() })
            },
            Function::Exp(_) => {
                let tau = real_of(&bindings.positional[0]);
                Value::Sound(
                    Sound::Exp {
                        coefficient: binary(ops, BinaryFunction::Div, Real::minus_one(), tau),
                        intercept: Real::one(),
                    },
                )
            },
            Function::Linear(_) => {
                let x0 = real_of(&bindings.positional[0]);
                let x1 = real_of(&bindings.positional[1]);
                let t1 = real_of(&bindings.named[0].1);
                let rise = binary(ops, BinaryFunction::Sub, x1, x0);
                Value::Sound(Sound::Linear { slope: binary(ops, BinaryFunction::Div, rise, t1), intercept: x0 })
            },
        }
    }
}

impl RealFunction {
    /// The slots that a call of the function fills: one real per parameter,
    /// each holding zero.
    pub open spec fn slots(self) -> BindingsView {
        BindingsView {
            positional: Seq::new(self.arity_spec(), |i: int| ArgumentView::Real(Real::of_bits(ZERO_BITS))),
            named: seq![],
        }
    }

    /// The bindings have the shape of the function's slots.
    pub open spec fn accepts(self, bindings: BindingsView) -> bool {
        &&& bindings.positional.len() == self.arity_spec()
        &&& forall|i: int| 0 <= i < self.arity_spec() ==> (#[trigger] bindings.positional[i]) is Real
    }

    /// The numbers in the positional slots.
    pub open spec fn numbers(bindings: BindingsView) -> Seq<Real> {
        Seq::new(bindings.positional.len(), |i: int| bindings.positional[i]->Real_0)
    }

    /// Fresh slots for one call, each holding zero.
    pub fn arguments(&self) -> (result: Bindings)
        ensures
            result@ == self.slots(),
            self.accepts(result@),
    {
        let positional = match self {
            RealFunction::Unary(_) => vec![Argument::Real(Real::zero())],
            RealFunction::Binary(_) => vec![Argument::Real(Real::zero()), Argument::Real(Real::zero())],
        };
        let result = Bindings { positional, named: Vec::new() };
        assert(result@.positional =~= self.slots().positional);
        assert(result@.named =~= self.slots().named);
        result
    }

    /// The value of the function on the bindings: one request to the
    /// service.
    pub fn invoke<F: Fn(Operation) -> Real>(&self, bindings: &Bindings, ops: &F) -> (result: Real)
        requires
            serves_all(ops),
            self.accepts(bindings@),
        ensures
            answers(ops, self.request(Self::numbers(bindings@)), result),
    {
        assert forall|i: int| 0 <= i < bindings.positional.len() implies (#[trigger] bindings.positional[i])@
            == bindings@.positional[i] by {}
        match self {
            RealFunction::Unary(primitive) => unary(ops, primitive.0, real_of(&bindings.positional[0])),
            RealFunction::Binary(primitive) => binary(
                ops,
                primitive.0,
                real_of(&bindings.positional[0]),
                real_of(&bindings.positional[1]),
            ),
        }
    }
}

/// The number in a slot that holds a real.
fn real_of(slot: &Argument) -> (result: Real)
    requires
        slot@ is Real,
    ensures
        slot@ == ArgumentView::Real(result),
{
    match slot {
        Argument::Real(x) => *x,
        _ => Real::zero(),
    }
}

} // verus!
