//! The sample-stream engine: a signal turned into a generator that yields
//! one sample per call, by recurrences instead of closed forms.

use vstd::prelude::*;
use vstd::arithmetic::div_mod::{lemma_add_mod_noop, lemma_mod_bound, lemma_mod_twice, lemma_small_mod};
use crate::function::RealFunction;
use crate::number::{
    answers, binary, random, serves_all, unary, BinaryFunction, Operation, Real, UnaryFunction, AMPLITUDE_BITS,
    ONE_BITS, TAU_BITS, ZERO_BITS,
};
use crate::value::{Sound, SoundView, Value, ValueView};

verus! {

/// A complex number in rectangular form.
#[derive(Clone, Copy, Debug, PartialEq, Eq, Structural, Hash)]
pub struct Complex {
    pub re: Real,
    pub im: Real,
}

/// The state of a generator of samples, one variant per kind of signal.
#[allow(inconsistent_fields)]
#[derive(Debug, PartialEq)]
pub enum SoundIter {
    /// Yields the same value for ever.
    Const(Real),
    /// Yields `next`, then adds `difference` to it.
    Linear { next: Real, difference: Real },
    /// Yields `next`, then multiplies it by `ratio`.
    Exp { next: Real, ratio: Real },
    /// Yields the imaginary part of `next`, then rotates `next` by `ratio`.
    Sin { next: Complex, ratio: Complex },
    /// Yields a fresh random number.
    Rand,
    Minus(Box<SoundIter>),
    Reciprocal(Box<SoundIter>),
    Add(Box<SoundIter>, Box<SoundIter>),
    Sub(Box<SoundIter>, Box<SoundIter>),
    Mul(Box<SoundIter>, Box<SoundIter>),
    Div(Box<SoundIter>, Box<SoundIter>),
    Pow(Box<SoundIter>, Box<SoundIter>),
    /// A real function, the slots that hold its arguments, and for each
    /// argument that is a signal the number of its slot and its generator.
    Function(RealFunction, Vec<Real>, Vec<(usize, SoundIter)>),
}

/// What a [`SoundIter`] holds, with sequences in place of vectors.
#[allow(inconsistent_fields)]
pub enum SoundIterView {
    Const(Real),
    Linear { next: Real, difference: Real },
    Exp { next: Real, ratio: Real },
    Sin { next: Complex, ratio: Complex },
    Rand,
    Minus(Box<SoundIterView>),
    Reciprocal(Box<SoundIterView>),
    Add(Box<SoundIterView>, Box<SoundIterView>),
    Sub(Box<SoundIterView>, Box<SoundIterView>),
    Mul(Box<SoundIterView>, Box<SoundIterView>),
    Div(Box<SoundIterView>, Box<SoundIterView>),
    Pow(Box<SoundIterView>, Box<SoundIterView>),
    Function(RealFunction, Seq<Real>, Seq<(usize, SoundIterView)>),
}

impl SoundIter {
    pub open spec fn view(&self) -> SoundIterView
        decreases self,
    {
        match self {
            SoundIter::Const(value) => SoundIterView::Const(*value),
            SoundIter::Linear { next, difference } => SoundIterView::Linear { next: *next, difference: *difference },
            SoundIter::Exp { next, ratio } => SoundIterView::Exp { next: *next, ratio: *ratio },
            SoundIter::Sin { next, ratio } => SoundIterView::Sin { next: *next, ratio: *ratio },
            SoundIter::Rand => SoundIterView::Rand,
            SoundIter::Minus(inner) => SoundIterView::Minus(Box::new(inner.view())),
            SoundIter::Reciprocal(inner) => SoundIterView::Reciprocal(Box::new(inner.view())),
            SoundIter::Add(left, right) => SoundIterView::Add(Box::new(left.view()), Box::new(right.view())),
            SoundIter::Sub(left, right) => SoundIterView::Sub(Box::new(left.view()), Box::new(right.view())),
            SoundIter::Mul(left, right) => SoundIterView::Mul(Box::new(left.view()), Box::new(right.view())),
            SoundIter::Div(left, right) => SoundIterView::Div(Box::new(left.view()), Box::new(right.view())),
            SoundIter::Pow(left, right) => SoundIterView::Pow(Box::new(left.view()), Box::new(right.view())),
            SoundIter::Function(function, slots, children) => SoundIterView::Function(
                *function,
                slots@,
                Seq::new(
                    children.len() as nat,
                    |i: int|
                        if 0 <= i < children.len() {
                            (children[i].0, children[i].1.view())
                        } else {
                            (0usize, SoundIterView::Rand)
                        },
                ),
            ),
        }
    }
}

impl SoundIterView {
    /// Every function node has one slot per parameter, and each of its
    /// generators writes to one of these slots.
    pub open spec fn well_formed(self) -> bool
        decreases self,
    {
        match self {
            SoundIterView::Minus(inner) => inner.well_formed(),
            SoundIterView::Reciprocal(inner) => inner.well_formed(),
            SoundIterView::Add(left, right) => left.well_formed() && right.well_formed(),
            SoundIterView::Sub(left, right) => left.well_formed() && right.well_formed(),
            SoundIterView::Mul(left, right) => left.well_formed() && right.well_formed(),
            SoundIterView::Div(left, right) => left.well_formed() && right.well_formed(),
            SoundIterView::Pow(left, right) => left.well_formed() && right.well_formed(),
            SoundIterView::Function(function, slots, children) => {
                &&& slots.len() == function.arity_spec()
                &&& forall|i: int|
                    0 <= i < children.len() ==> (#[trigger] children[i]).0 < slots.len()
                        && children[i].1.well_formed()
            },
            _ => true,
        }
    }
}

/// `out` is a possible product of `z` and `w`, computed as the in-place
/// complex multiplication does: the real part is `z.re * w.re - z.im * w.im`,
/// the imaginary part `z.im * w.re + z.re * w.im`.
pub open spec fn rotated<F: Fn(Operation) -> Real>(ops: &F, z: Complex, w: Complex, out: Complex) -> bool {
    exists|a: Real, b: Real, c: Real, d: Real|
        #![trigger answers(ops, Operation::Binary(BinaryFunction::Mul, z.re, w.re), a), answers(ops, Operation::Binary(BinaryFunction::Mul, z.im, w.im), b), answers(ops, Operation::Binary(BinaryFunction::Mul, z.im, w.re), c), answers(ops, Operation::Binary(BinaryFunction::Mul, z.re, w.im), d)]
        {
            &&& answers(ops, Operation::Binary(BinaryFunction::Mul, z.re, w.re), a)
            &&& answers(ops, Operation::Binary(BinaryFunction::Mul, z.im, w.im), b)
            &&& answers(ops, Operation::Binary(BinaryFunction::Sub, a, b), out.re)
            &&& answers(ops, Operation::Binary(BinaryFunction::Mul, z.im, w.re), c)
            &&& answers(ops, Operation::Binary(BinaryFunction::Mul, z.re, w.im), d)
            &&& answers(ops, Operation::Binary(BinaryFunction::Add, c, d), out.im)
        }
}

/// The slots after the first `n` generators have written their samples
/// `samples`, one after the other.
pub open spec fn written(
    slots: Seq<Real>,
    children: Seq<(usize, SoundIterView)>,
    samples: Seq<Real>,
    n: nat,
) -> Seq<Real>
    decreases n,
{
    if n == 0 {
        slots
    } else {
        written(slots, children, samples, (n - 1) as nat).update(
            children[n - 1].0 as int,
            samples[n - 1],
        )
    }
}

/// The serial number that follows `n` requests: serial numbers start over
/// after the largest one.
#[verifier::opaque]
pub open spec fn wrapped(n: int) -> u64 {
    (n % 0x1_0000_0000_0000_0000) as u64
}

/// A serial number stays as it is where nothing more is asked for.
pub proof fn lemma_wrapped_stays(drawn: u64)
    ensures
        wrapped(drawn + 0) == drawn,
{
    reveal(wrapped);
    lemma_small_mod(drawn as nat, 0x1_0000_0000_0000_0000);
}

/// The serial number behind the first one is one.
pub proof fn lemma_wrapped_one()
    ensures
        wrapped(0u64 + 1) == 1,
{
    reveal(wrapped);
    lemma_small_mod(1, 0x1_0000_0000_0000_0000);
}

/// Counting on from a serial number by `a` and then by `b` is counting on
/// by `a + b`.
pub proof fn lemma_wrapped_adds(drawn: u64, a: nat, b: nat)
    ensures
        wrapped(wrapped(drawn + a) + b) == wrapped(drawn + (a + b)),
{
    reveal(wrapped);
    let m = 0x1_0000_0000_0000_0000int;
    let x = drawn + a;
    lemma_mod_bound(x, m);
    lemma_add_mod_noop(x, b as int, m);
    lemma_add_mod_noop(x % m, b as int, m);
    lemma_mod_twice(x, m);
}

impl SoundIterView {
    /// The number of random numbers that the generator asks for in one
    /// tick: the number of its noise generators.
    pub open spec fn noise_count(self) -> nat
        decreases self,
    {
        match self {
            SoundIterView::Rand => 1,
            SoundIterView::Minus(inner) => inner.noise_count(),
            SoundIterView::Reciprocal(inner) => inner.noise_count(),
            SoundIterView::Add(left, right) => left.noise_count() + right.noise_count(),
            SoundIterView::Sub(left, right) => left.noise_count() + right.noise_count(),
            SoundIterView::Mul(left, right) => left.noise_count() + right.noise_count(),
            SoundIterView::Div(left, right) => left.noise_count() + right.noise_count(),
            SoundIterView::Pow(left, right) => left.noise_count() + right.noise_count(),
            SoundIterView::Function(_, _, children) => noise_before(children, children.len()),
            _ => 0,
        }
    }
}

/// The number of random numbers that the first `n` of the generators ask
/// for in one tick.
pub open spec fn noise_before(children: Seq<(usize, SoundIterView)>, n: nat) -> nat
    decreases children, n,
{
    if n == 0 || n > children.len() {
        0
    } else {
        noise_before(children, (n - 1) as nat) + children[n - 1].1.noise_count()
    }
}

/// One tick of the generator `state`, before which `drawn` random numbers
/// were asked for in the same tick, may yield `sample` and leave the
/// generator as `after`.
///
/// A combinator advances each of its children exactly once, the left one
/// before the right one, and combines their samples, the left sample as
/// the first argument; a function node advances every child in order,
/// writes each sample to the child's slot, and then applies the function
/// once to the slots. The random numbers are asked for in this order: each
/// noise generator asks for the one whose serial number is the number of
/// those asked for before it.
pub open spec fn advances<F: Fn(Operation) -> Real>(
    state: SoundIterView,
    ops: &F,
    drawn: u64,
    sample: Real,
    after: SoundIterView,
) -> bool
    decreases state,
{
    match state {
        SoundIterView::Const(value) => sample == value && after == state,
        SoundIterView::Linear { next, difference } => {
            &&& sample == next
            &&& after is Linear
            &&& after->Linear_difference == difference
            &&& answers(ops, Operation::Binary(BinaryFunction::Add, next, difference), after->Linear_next)
        },
        SoundIterView::Exp { next, ratio } => {
            &&& sample == next
            &&& after is Exp
            &&& after->Exp_ratio == ratio
            &&& answers(ops, Operation::Binary(BinaryFunction::Mul, next, ratio), after->Exp_next)
        },
        SoundIterView::Sin { next, ratio } => {
            &&& sample == next.im
            &&& after is Sin
            &&& after->Sin_ratio == ratio
            &&& rotated(ops, next, ratio, after->Sin_next)
        },
        SoundIterView::Rand => answers(ops, Operation::Random(drawn), sample) && after == state,
        SoundIterView::Minus(inner) => {
            &&& after is Minus
            &&& exists|x: Real| advances(*inner, ops, drawn, x, *after->Minus_0) && sample == #[trigger] x.negated()
        },
        SoundIterView::Reciprocal(inner) => {
            &&& after is Reciprocal
            &&& exists|x: Real|
                advances(*inner, ops, drawn, x, *after->Reciprocal_0) && #[trigger] answers(
                    ops,
                    Operation::Binary(BinaryFunction::Div, Real::of_bits(ONE_BITS), x),
                    sample,
                )
        },
        SoundIterView::Add(left, right) => {
            &&& after is Add
            &&& exists|x: Real, y: Real|
                advances(*left, ops, drawn, x, *after->Add_0) && advances(
                    *right,
                    ops,
                    wrapped(drawn + left.noise_count()),
                    y,
                    *after->Add_1,
                ) && #[trigger] answers(ops, Operation::Binary(BinaryFunction::Add, x, y), sample)
        },
        SoundIterView::Sub(left, right) => {
            &&& after is Sub
            &&& exists|x: Real, y: Real|
                advances(*left, ops, drawn, x, *after->Sub_0) && advances(
                    *right,
                    ops,
                    wrapped(drawn + left.noise_count()),
                    y,
                    *after->Sub_1,
                ) && #[trigger] answers(ops, Operation::Binary(BinaryFunction::Sub, x, y), sample)
        },
        SoundIterView::Mul(left, right) => {
            &&& after is Mul
            &&& exists|x: Real, y: Real|
                advances(*left, ops, drawn, x, *after->Mul_0) && advances(
                    *right,
                    ops,
                    wrapped(drawn + left.noise_count()),
                    y,
                    *after->Mul_1,
                ) && #[trigger] answers(ops, Operation::Binary(BinaryFunction::Mul, x, y), sample)
        },
        SoundIterView::Div(left, right) => {
            &&& after is Div
            &&& exists|x: Real, y: Real|
                advances(*left, ops, drawn, x, *after->Div_0) && advances(
                    *right,
                    ops,
                    wrapped(drawn + left.noise_count()),
                    y,
                    *after->Div_1,
                ) && #[trigger] answers(ops, Operation::Binary(BinaryFunction::Div, x, y), sample)
        },
        SoundIterView::Pow(left, right) => {
            &&& after is Pow
            &&& exists|x: Real, y: Real|
                advances(*left, ops, drawn, x, *after->Pow_0) && advances(
                    *right,
                    ops,
                    wrapped(drawn + left.noise_count()),
                    y,
                    *after->Pow_1,
                ) && #[trigger] answers(ops, Operation::Binary(BinaryFunction::Pow, x, y), sample)
        },
        SoundIterView::Function(function, slots, children) => {
            &&& after is Function
            &&& after->Function_0 == function
            &&& after->Function_2.len() == children.len()
            &&& exists|samples: Seq<Real>|
                {
                    &&& samples.len() == children.len()
                    &&& forall|i: int|
                        0 <= i < children.len() ==> (#[trigger] after->Function_2[i]).0 == children[i].0
                            && advances(
                            children[i].1,
                            ops,
                            wrapped(drawn + noise_before(children, i as nat)),
                            samples[i],
                            after->Function_2[i].1,
                        )
                    &&& after->Function_1 == #[trigger] written(slots, children, samples, children.len())
                    &&& answers(ops, function.request(after->Function_1), sample)
                }
        },
    }
}

/// One call of `next` may yield `sample` and leave the generator `state` as
/// `after`: one tick, before which no random number was asked for.
pub open spec fn steps<F: Fn(Operation) -> Real>(
    state: SoundIterView,
    ops: &F,
    sample: Real,
    after: SoundIterView,
) -> bool {
    advances(state, ops, 0, sample, after)
}

impl Complex {
    /// The product of `self` and `ratio`, as the in-place complex
    /// multiplication computes it.
    pub fn rotate<F: Fn(Operation) -> Real>(self, ratio: Complex, ops: &F) -> (result: Complex)
        requires
            serves_all(ops),
        ensures
            rotated(ops, self, ratio, result),
    {
        let a = binary(ops, BinaryFunction::Mul, self.re, ratio.re);
        let b = binary(ops, BinaryFunction::Mul, self.im, ratio.im);
        let re = binary(ops, BinaryFunction::Sub, a, b);
        let c = binary(ops, BinaryFunction::Mul, self.im, ratio.re);
        let d = binary(ops, BinaryFunction::Mul, self.re, ratio.im);
        let im = binary(ops, BinaryFunction::Add, c, d);
        Complex { re, im }
    }
}

/// The serial number behind `serial`.
fn following(serial: u64) -> (result: u64)
    ensures
        result == wrapped(serial + 1),
{
    reveal(wrapped);
    if serial == u64::MAX {
        0
    } else {
        proof {
            lemma_small_mod((serial + 1) as nat, 0x1_0000_0000_0000_0000);
        }
        serial + 1
    }
}

impl SoundIter {
    /// The next sample; the state moves on by one tick.
    pub fn next<F: Fn(Operation) -> Real>(&mut self, ops: &F) -> (sample: Real)
        requires
            serves_all(ops),
            old(self)@.well_formed(),
        ensures
            steps(old(self)@, ops, sample, final(self)@),
            final(self)@.well_formed(),
    {
        self.advance(ops, 0).0
    }

    /// One tick of the generator, before which `drawn` random numbers were
    /// asked for in the same tick: the sample, and the number of random
    /// numbers asked for up to the end of the tick.
    pub fn advance<F: Fn(Operation) -> Real>(&mut self, ops: &F, drawn: u64) -> (result: (Real, u64))
        requires
            serves_all(ops),
            old(self)@.well_formed(),
        ensures
            advances(old(self)@, ops, drawn, result.0, final(self)@),
            result.1 == wrapped(drawn + old(self)@.noise_count()),
            final(self)@.well_formed(),
        decreases *old(self),
    {
        match self {
            SoundIter::Const(value) => {
                proof {
                    lemma_wrapped_stays(drawn);
                }
                (*value, drawn)
            },
            SoundIter::Linear { next, difference } => {
                let sample = *next;
                *next = binary(ops, BinaryFunction::Add, *next, *difference);
                proof {
                    lemma_wrapped_stays(drawn);
                }
                (sample, drawn)
            },
            SoundIter::Exp { next, ratio } => {
                let sample = *next;
                *next = binary(ops, BinaryFunction::Mul, *next, *ratio);
                proof {
                    lemma_wrapped_stays(drawn);
                }
                (sample, drawn)
            },
            SoundIter::Sin { next, ratio } => {
                let sample = next.im;
                *next = next.rotate(*ratio, ops);
                proof {
                    lemma_wrapped_stays(drawn);
                }
                (sample, drawn)
            },
            SoundIter::Rand => (random(ops, drawn), following(drawn)),
            SoundIter::Minus(inner) => {
                let (x, drawn) = inner.advance(ops, drawn);
                (x.negate(), drawn)
            },
            SoundIter::Reciprocal(inner) => {
                let (x, drawn) = inner.advance(ops, drawn);
                (binary(ops, BinaryFunction::Div, Real::one(), x), drawn)
            },
            SoundIter::Add(left, right) => {
                let ghost first = left@.noise_count();
                let ghost second = right@.noise_count();
                let (x, between) = left.advance(ops, drawn);
                let (y, after) = right.advance(ops, between);
                proof {
                    lemma_wrapped_adds(drawn, first, second);
                }
                (binary(ops, BinaryFunction::Add, x, y), after)
            },
            SoundIter::Sub(left, right) => {
                let ghost first = left@.noise_count();
                let ghost second = right@.noise_count();
                let (x, between) = left.advance(ops, drawn);
                let (y, after) = right.advance(ops, between);
                proof {
                    lemma_wrapped_adds(drawn, first, second);
                }
                (binary(ops, BinaryFunction::Sub, x, y), after)
            },
            SoundIter::Mul(left, right) => {
                let ghost first = left@.noise_count();
                let ghost second = right@.noise_count();
                let (x, between) = left.advance(ops, drawn);
                let (y, after) = right.advance(ops, between);
                proof {
                    lemma_wrapped_adds(drawn, first, second);
                }
                (binary(ops, BinaryFunction::Mul, x, y), after)
            },
            SoundIter::Div(left, right) => {
                let ghost first = left@.noise_count();
                let ghost second = right@.noise_count();
                let (x, between) = left.advance(ops, drawn);
                let (y, after) = right.advance(ops, between);
                proof {
                    lemma_wrapped_adds(drawn, first, second);
                }
                (binary(ops, BinaryFunction::Div, x, y), after)
            },
            SoundIter::Pow(left, right) => {
                let ghost first = left@.noise_count();
                let ghost second = right@.noise_count();
                let (x, between) = left.advance(ops, drawn);
                let (y, after) = right.advance(ops, between);
                proof {
                    lemma_wrapped_adds(drawn, first, second);
                }
                (binary(ops, BinaryFunction::Pow, x, y), after)
            },
            SoundIter::Function(function, slots, children) => {
                let ghost slots_before = slots@;
                let ghost children_before = *children;
                let ghost views_before = old(self)@->Function_2;
                let ghost mut samples: Seq<Real> = Seq::empty();
                assert forall|k: int| 0 <= k < children.len() implies views_before[k] == (
                    (#[trigger] children[k]).0,
                    children[k].1@,
                ) by {}
                let mut serial = drawn;
                let mut i: usize = 0;
                proof {
                    lemma_wrapped_stays(drawn);
                }
                while i < children.len()
                    invariant
                        serves_all(ops),
                        i <= children.len(),
                        *old(self) matches SoundIter::Function(_, _, c) && c == children_before,
                        old(self)@ matches SoundIterView::Function(_, s, v) && s == slots_before && v
                            == views_before,
                        slots.len() == slots_before.len(),
                        children.len() == children_before.len(),
                        views_before.len() == children_before.len(),
                        samples.len() == i,
                        serial == wrapped(drawn + noise_before(views_before, i as nat)),
                        forall|k: int|
                            0 <= k < children.len() ==> (#[trigger] children[k]).0 == views_before[k].0
                                && children[k].0 < slots.len() && children[k].1@.well_formed(),
                        forall|k: int| i <= k < children.len() ==> #[trigger] children[k] == children_before[k],
                        forall|k: int|
                            i <= k < children.len() ==> (#[trigger] children[k]).1@ == views_before[k].1,
                        forall|k: int|
                            0 <= k < i ==> advances(
                                views_before[k].1,
                                ops,
                                wrapped(drawn + noise_before(views_before, k as nat)),
                                samples[k],
                                (#[trigger] children[k]).1@,
                            ),
                        slots@ == written(slots_before, views_before, samples, i as nat),
                    decreases children.len() - i,
                {
                    let index = children[i].0;
                    let (x, next_serial) = children[i].1.advance(ops, serial);
                    slots[index] = x;
                    proof {
                        lemma_written_prefix(slots_before, views_before, samples, samples.push(x), i as nat);
                        samples = samples.push(x);
                        lemma_wrapped_adds(
                            drawn,
                            noise_before(views_before, i as nat),
                            views_before[i as int].1.noise_count(),
                        );
                    }
                    serial = next_serial;
                    i += 1;
                }
                let sample = function.apply(slots, ops);
                proof {
                    let after = self@;
                    assert(after->Function_2.len() == views_before.len());
                    assert forall|k: int| 0 <= k < views_before.len() implies (#[trigger] after->Function_2[k]).0
                        == views_before[k].0 && advances(
                        views_before[k].1,
                        ops,
                        wrapped(drawn + noise_before(views_before, k as nat)),
                        samples[k],
                        after->Function_2[k].1,
                    ) by {
                        assert(after->Function_2[k] == (children[k].0, children[k].1@));
                    }
                    assert(after->Function_1 == written(
                        slots_before,
                        views_before,
                        samples,
                        views_before.len(),
                    ));
                    assert forall|k: int| 0 <= k < after->Function_2.len() implies (#[trigger] after->Function_2[k]).0
                        < after->Function_1.len() && after->Function_2[k].1.well_formed() by {
                        assert(after->Function_2[k] == (children[k].0, children[k].1@));
                    }
                }
                (sample, serial)
            },
        }
    }
}

/// Only the first `n` samples decide what the first `n` generators have
/// written.
pub proof fn lemma_written_prefix(
    slots: Seq<Real>,
    children: Seq<(usize, SoundIterView)>,
    first: Seq<Real>,
    second: Seq<Real>,
    n: nat,
)
    requires
        n <= first.len(),
        n <= second.len(),
        forall|k: int| 0 <= k < n ==> first[k] == second[k],
    ensures
        written(slots, children, first, n) == written(slots, children, second, n),
    decreases n,
{
    if n > 0 {
        lemma_written_prefix(slots, children, first, second, (n - 1) as nat);
    }
}

/// `out` is a possible complex number of modulus `r` and argument `theta`:
/// `r * cos(theta)` and `r * sin(theta)`.
pub open spec fn polar<F: Fn(Operation) -> Real>(ops: &F, r: Real, theta: Real, out: Complex) -> bool {
    exists|c: Real, s: Real|
        #![trigger answers(ops, Operation::Unary(UnaryFunction::Cos, theta), c), answers(ops, Operation::Unary(UnaryFunction::Sin, theta), s)]
        {
            &&& answers(ops, Operation::Unary(UnaryFunction::Cos, theta), c)
            &&& answers(ops, Operation::Binary(BinaryFunction::Mul, r, c), out.re)
            &&& answers(ops, Operation::Unary(UnaryFunction::Sin, theta), s)
            &&& answers(ops, Operation::Binary(BinaryFunction::Mul, r, s), out.im)
        }
}

/// `out` is a possible angle by which an oscillator of this frequency turns
/// in one tick: `tau * frequency / samplerate`.
pub open spec fn angle_per_tick<F: Fn(Operation) -> Real>(ops: &F, frequency: Real, samplerate: Real, out: Real) -> bool {
    exists|turns: Real|
        #[trigger] answers(
            ops,
            Operation::Binary(BinaryFunction::Mul, Real::of_bits(TAU_BITS), frequency),
            turns,
        ) && answers(ops, Operation::Binary(BinaryFunction::Div, turns, samplerate), out)
}

/// `out` is a possible rotation of an oscillator of this frequency in one
/// tick: the complex number of modulus one whose argument is the angle per
/// tick.
pub open spec fn turn_per_tick<F: Fn(Operation) -> Real>(
    ops: &F,
    frequency: Real,
    samplerate: Real,
    out: Complex,
) -> bool {
    exists|angle: Real|
        angle_per_tick(ops, frequency, samplerate, angle) && #[trigger] polar(
            ops,
            Real::of_bits(ONE_BITS),
            angle,
            out,
        )
}

/// `out` is a possible factor by which an exponential grows in one tick:
/// `exp(coefficient / samplerate)`.
pub open spec fn growth_per_tick<F: Fn(Operation) -> Real>(
    ops: &F,
    coefficient: Real,
    samplerate: Real,
    out: Real,
) -> bool {
    exists|exponent: Real|
        #[trigger] answers(ops, Operation::Binary(BinaryFunction::Div, coefficient, samplerate), exponent)
            && answers(ops, Operation::Unary(UnaryFunction::Exp, exponent), out)
}

/// The places among the first `n` arguments that hold a signal, in
/// increasing order.
pub open spec fn signal_positions(arguments: Seq<ValueView>, n: nat) -> Seq<int>
    decreases n,
{
    if n == 0 {
        Seq::empty()
    } else if arguments[n - 1] is Sound {
        signal_positions(arguments, (n - 1) as nat).push(n - 1)
    } else {
        signal_positions(arguments, (n - 1) as nat)
    }
}

/// The number of arguments of a function signal that are bound to slots:
/// the arguments beyond the function's parameters are ignored.
pub open spec fn bound_arguments(function: RealFunction, arguments: Seq<ValueView>) -> nat {
    if arguments.len() < function.arity_spec() {
        arguments.len()
    } else {
        function.arity_spec()
    }
}

impl SoundView {
    /// A generator can be made of the signal: each argument of a function
    /// signal that is bound to a slot is a real number or a signal of which
    /// a generator can be made.
    pub open spec fn iterable(self) -> bool
        decreases self,
    {
        match self {
            SoundView::Minus(inner) => inner.iterable(),
            SoundView::Reciprocal(inner) => inner.iterable(),
            SoundView::Add(left, right) => left.iterable() && right.iterable(),
            SoundView::Sub(left, right) => left.iterable() && right.iterable(),
            SoundView::Mul(left, right) => left.iterable() && right.iterable(),
            SoundView::Div(left, right) => left.iterable() && right.iterable(),
            SoundView::Pow(left, right) => left.iterable() && right.iterable(),
            SoundView::Function(function, positional, named) => forall|i: int|
                0 <= i < positional.len() && i < function.arity_spec() ==> match #[trigger] positional[i] {
                    ValueView::Real(_) => true,
                    ValueView::Sound(sound) => sound.iterable(),
                    _ => false,
                },
            _ => true,
        }
    }
}

/// `out` is a possible generator of the signal `sound` at `samplerate`
/// samples per unit of time, before its first sample.
///
/// The recurrences start at time zero; the steps are asked of the arithmetic
/// service once, here. A function signal gets one slot per parameter: a
/// slot bound to a real number holds it, every other slot holds zero, and
/// each argument that is a signal gets a generator that writes to its slot.
pub open spec fn iterates<F: Fn(Operation) -> Real>(
    sound: SoundView,
    samplerate: Real,
    ops: &F,
    out: SoundIterView,
) -> bool
    decreases sound,
{
    match sound {
        SoundView::Const(value) => out == SoundIterView::Const(value),
        SoundView::Linear { slope, intercept } => {
            &&& out is Linear
            &&& out->Linear_next == intercept
            &&& answers(ops, Operation::Binary(BinaryFunction::Div, slope, samplerate), out->Linear_difference)
        },
        SoundView::Sin { frequency, phase } => {
            &&& out is Sin
            &&& polar(ops, Real::of_bits(ONE_BITS), phase, out->Sin_next)
            &&& turn_per_tick(ops, frequency, samplerate, out->Sin_ratio)
        },
        SoundView::Exp { coefficient, intercept } => {
            &&& out is Exp
            &&& out->Exp_next == intercept
            &&& growth_per_tick(ops, coefficient, samplerate, out->Exp_ratio)
        },
        SoundView::Rand => out == SoundIterView::Rand,
        SoundView::Minus(inner) => out is Minus && iterates(*inner, samplerate, ops, *out->Minus_0),
        SoundView::Reciprocal(inner) => out is Reciprocal && iterates(
            *inner,
            samplerate,
            ops,
            *out->Reciprocal_0,
        ),
        SoundView::Add(left, right) => {
            &&& out is Add
            &&& iterates(*left, samplerate, ops, *out->Add_0)
            &&& iterates(*right, samplerate, ops, *out->Add_1)
        },
        SoundView::Sub(left, right) => {
            &&& out is Sub
            &&& iterates(*left, samplerate, ops, *out->Sub_0)
            &&& iterates(*right, samplerate, ops, *out->Sub_1)
        },
        SoundView::Mul(left, right) => {
            &&& out is Mul
            &&& iterates(*left, samplerate, ops, *out->Mul_0)
            &&& iterates(*right, samplerate, ops, *out->Mul_1)
        },
        SoundView::Div(left, right) => {
            &&& out is Div
            &&& iterates(*left, samplerate, ops, *out->Div_0)
            &&& iterates(*right, samplerate, ops, *out->Div_1)
        },
        SoundView::Pow(left, right) => {
            &&& out is Pow
            &&& iterates(*left, samplerate, ops, *out->Pow_0)
            &&& iterates(*right, samplerate, ops, *out->Pow_1)
        },
        SoundView::Function(function, positional, named) => {
            &&& out is Function
            &&& out->Function_0 == function
            &&& out->Function_1 == initial_slots(function, positional)
            &&& out->Function_2.len() == signal_positions(
                positional,
                bound_arguments(function, positional),
            ).len()
            &&& forall|k: int|
                0 <= k < out->Function_2.len() ==> (#[trigger] out->Function_2[k]).0 == signal_positions(
                    positional,
                    bound_arguments(function, positional),
                )[k] && argument_iterates(
                    positional,
                    out->Function_2[k].0 as int,
                    samplerate,
                    ops,
                    out->Function_2[k].1,
                )
        },
    }
}

/// `out` is a possible generator of the signal that is the argument at
/// `place`.
pub open spec fn argument_iterates<F: Fn(Operation) -> Real>(
    arguments: Seq<ValueView>,
    place: int,
    samplerate: Real,
    ops: &F,
    out: SoundIterView,
) -> bool
    decreases arguments,
{
    &&& 0 <= place < arguments.len()
    &&& arguments[place] is Sound
    &&& iterates(arguments[place]->Sound_0, samplerate, ops, out)
}

/// The slots of a function signal before the first sample: a slot bound to
/// a real number holds that number, every other slot holds zero.
pub open spec fn initial_slots(function: RealFunction, arguments: Seq<ValueView>) -> Seq<Real> {
    Seq::new(
        function.arity_spec(),
        |i: int|
            if i < arguments.len() && arguments[i] is Real {
                arguments[i]->Real_0
            } else {
                Real::of_bits(ZERO_BITS)
            },
    )
}

impl Complex {
    /// The complex number of modulus `r` and argument `theta`.
    pub fn from_polar<F: Fn(Operation) -> Real>(r: Real, theta: Real, ops: &F) -> (result: Complex)
        requires
            serves_all(ops),
        ensures
            polar(ops, r, theta, result),
    {
        let c = unary(ops, UnaryFunction::Cos, theta);
        let re = binary(ops, BinaryFunction::Mul, r, c);
        let s = unary(ops, UnaryFunction::Sin, theta);
        let im = binary(ops, BinaryFunction::Mul, r, s);
        Complex { re, im }
    }
}

impl Value {
    /// The value can be bound to a slot of a function signal.
    pub fn is_iterable(&self) -> (result: bool)
        ensures
            result == match self@ {
                ValueView::Real(_) => true,
                ValueView::Sound(sound) => sound.iterable(),
                _ => false,
            },
        decreases self,
    {
        match self {
            Value::Real(_) => true,
            Value::Sound(sound) => sound.is_iterable(),
            _ => false,
        }
    }
}

impl Sound {
    /// Tells whether a generator can be made of the signal.
    pub fn is_iterable(&self) -> (result: bool)
        ensures
            result == self@.iterable(),
        decreases self,
    {
        match self {
            Sound::Minus(inner) => inner.is_iterable(),
            Sound::Reciprocal(inner) => inner.is_iterable(),
            Sound::Add(left, right) => left.is_iterable() && right.is_iterable(),
            Sound::Sub(left, right) => left.is_iterable() && right.is_iterable(),
            Sound::Mul(left, right) => left.is_iterable() && right.is_iterable(),
            Sound::Div(left, right) => left.is_iterable() && right.is_iterable(),
            Sound::Pow(left, right) => left.is_iterable() && right.is_iterable(),
            Sound::Function(function, positional, named) => {
                let arity = function.arity();
                let mut i: usize = 0;
                while i < positional.len() && i < arity
                    invariant
                        i <= positional.len(),
                        arity == function.arity_spec(),
                        self matches Sound::Function(f, p, _) && f == function && p == positional,
                        forall|k: int|
                            0 <= k < i ==> match #[trigger] self@->Function_1[k] {
                                ValueView::Real(_) => true,
                                ValueView::Sound(sound) => sound.iterable(),
                                _ => false,
                            },
                    decreases positional.len() - i,
                {
                    assert(self@->Function_1[i as int] == positional[i as int]@);
                    if !positional[i].is_iterable() {
                        return false;
                    }
                    i += 1;
                }
                true
            },
            _ => true,
        }
    }

    /// The generator of the signal at `samplerate` samples per unit of time.
    pub fn iter<F: Fn(Operation) -> Real>(self, samplerate: Real, ops: &F) -> (result: SoundIter)
        requires
            serves_all(ops),
            self@.iterable(),
        ensures
            iterates(self@, samplerate, ops, result@),
            result@.well_formed(),
        decreases self,
    {
        match self {
            Sound::Const(value) => SoundIter::Const(value),
            Sound::Linear { slope, intercept } => SoundIter::Linear {
                next: intercept,
                difference: binary(ops, BinaryFunction::Div, slope, samplerate),
            },
            Sound::Sin { frequency, phase } => {
                let next = Complex::from_polar(Real::one(), phase, ops);
                let turns = binary(ops, BinaryFunction::Mul, Real::tau(), frequency);
                let angle = binary(ops, BinaryFunction::Div, turns, samplerate);
                assert(angle_per_tick(ops, frequency, samplerate, angle));
                SoundIter::Sin { next, ratio: Complex::from_polar(Real::one(), angle, ops) }
            },
            Sound::Exp { coefficient, intercept } => {
                let exponent = binary(ops, BinaryFunction::Div, coefficient, samplerate);
                SoundIter::Exp { next: intercept, ratio: unary(ops, UnaryFunction::Exp, exponent) }
            },
            Sound::Rand => SoundIter::Rand,
            Sound::Minus(inner) => SoundIter::Minus(Box::new(inner.iter(samplerate, ops))),
            Sound::Reciprocal(inner) => SoundIter::Reciprocal(Box::new(inner.iter(samplerate, ops))),
            Sound::Add(left, right) => SoundIter::Add(
                Box::new(left.iter(samplerate, ops)),
                Box::new(right.iter(samplerate, ops)),
            ),
            Sound::Sub(left, right) => SoundIter::Sub(
                Box::new(left.iter(samplerate, ops)),
                Box::new(right.iter(samplerate, ops)),
            ),
            Sound::Mul(left, right) => SoundIter::Mul(
                Box::new(left.iter(samplerate, ops)),
                Box::new(right.iter(samplerate, ops)),
            ),
            Sound::Div(left, right) => SoundIter::Div(
                Box::new(left.iter(samplerate, ops)),
                Box::new(right.iter(samplerate, ops)),
            ),
            Sound::Pow(left, right) => SoundIter::Pow(
                Box::new(left.iter(samplerate, ops)),
                Box::new(right.iter(samplerate, ops)),
            ),
            Sound::Function(function, positional, named) => {
                let ghost arguments = self@->Function_1;
                let ghost values = positional@;
                let arity = function.arity();
                let mut slots: Vec<Real> = Vec::new();
                let mut j: usize = 0;
                while j < arity
                    invariant
                        j <= arity,
                        slots.len() == j,
                        forall|k: int| 0 <= k < j ==> slots[k] == Real::of_bits(ZERO_BITS),
                    decreases arity - j,
                {
                    slots.push(Real::zero());
                    j += 1;
                }
                let mut children: Vec<(usize, SoundIter)> = Vec::new();
                let mut i: usize = 0;
                for value in it: positional
                    invariant
                        serves_all(ops),
                        self@ == SoundView::Function(function, arguments, self@->Function_2),
                        self matches Sound::Function(_, p, _) && p@ == values,
                        self@.iterable(),
                        it.seq() == values,
                        arguments.len() == values.len(),
                        forall|k: int| 0 <= k < values.len() ==> arguments[k] == (#[trigger] values[k])@,
                        i == it.index(),
                        i <= values.len(),
                        arity == function.arity_spec(),
                        slots.len() == arity,
                        forall|k: int|
                            0 <= k < arity ==> #[trigger] slots[k] == (if k < i && arguments[k] is Real {
                                arguments[k]->Real_0
                            } else {
                                Real::of_bits(ZERO_BITS)
                            }),
                        children.len() == signal_positions(
                            arguments,
                            if i < arity {
                                i as nat
                            } else {
                                arity as nat
                            },
                        ).len(),
                        forall|k: int|
                            0 <= k < children.len() ==> {
                                let place = signal_positions(
                                    arguments,
                                    if i < arity {
                                        i as nat
                                    } else {
                                        arity as nat
                                    },
                                )[k];
                                &&& (#[trigger] children[k]).0 == place
                                &&& 0 <= place < arguments.len()
                                &&& place < arity
                                &&& arguments[place] is Sound
                                &&& iterates(arguments[place]->Sound_0, samplerate, ops, children[k].1@)
                                &&& children[k].1@.well_formed()
                            },
                {
                    if i < arity {
                        assert(arguments[i as int] == value@);
                        match value {
                            Value::Sound(sound) => {
                                children.push((i, sound.iter(samplerate, ops)));
                            },
                            Value::Real(x) => {
                                slots[i] = x;
                            },
                            _ => {},
                        }
                    }
                    i += 1;
                }
                let result = SoundIter::Function(function, slots, children);
                proof {
                    let bound = bound_arguments(function, arguments);
                    assert(bound == if i < arity {
                        i as nat
                    } else {
                        arity as nat
                    });
                    let positions = signal_positions(arguments, bound);
                    assert(result@->Function_1 =~= initial_slots(function, arguments));
                    assert forall|k: int| 0 <= k < positions.len() implies (#[trigger] result@->Function_2[k]).0
                        == positions[k] && argument_iterates(
                        arguments,
                        result@->Function_2[k].0 as int,
                        samplerate,
                        ops,
                        result@->Function_2[k].1,
                    ) by {
                        assert(result@->Function_2[k] == (children[k].0, children[k].1@));
                    }
                    assert forall|k: int| 0 <= k < result@->Function_2.len() implies (
                    #[trigger] result@->Function_2[k]).0 < result@->Function_1.len()
                        && result@->Function_2[k].1.well_formed() by {
                        assert(result@->Function_2[k] == (children[k].0, children[k].1@));
                    }
                }
                result
            },
        }
    }
}

/// Starting in `state`, successive calls of `next` may yield `samples` and
/// leave the generator as `after`.
pub open spec fn streams<F: Fn(Operation) -> Real>(
    state: SoundIterView,
    ops: &F,
    samples: Seq<Real>,
    after: SoundIterView,
) -> bool
    decreases samples.len(),
{
    if samples.len() == 0 {
        after == state
    } else {
        exists|middle: SoundIterView|
            #[trigger] middle.well_formed() && streams(state, ops, samples.drop_last(), middle) && steps(
                middle,
                ops,
                samples.last(),
                after,
            )
    }
}

/// The number of samples of a rendering: the product of the duration and
/// the sample rate, truncated toward zero, and none where that is negative.
pub open spec fn sample_count(product: Real) -> nat {
    if product.truncated() < 0 {
        0
    } else {
        product.truncated() as nat
    }
}

/// `samples` is a possible rendering of the signal for `seconds` at
/// `samplerate` samples per second: the first samples of its generator, as
/// many as the duration times the rate.
pub open spec fn rendered<F: Fn(Operation) -> Real>(
    sound: SoundView,
    samplerate: u32,
    seconds: Real,
    ops: &F,
    samples: Seq<Real>,
) -> bool {
    exists|start: SoundIterView, product: Real, end: SoundIterView|
        #![trigger iterates(sound, Real::of_u32(samplerate), ops, start), sample_count(product), end.well_formed()]
        {
            &&& iterates(sound, Real::of_u32(samplerate), ops, start)
            &&& answers(ops, Operation::Binary(BinaryFunction::Mul, seconds, Real::of_u32(samplerate)), product)
            &&& samples.len() == sample_count(product)
            &&& streams(start, ops, samples, end)
            &&& end.well_formed()
        }
}

/// `out` is a possible 32-bit sample for a sample of a signal: the sample
/// scaled by the largest amplitude and converted to an integer.
pub open spec fn quantized<F: Fn(Operation) -> Real>(ops: &F, sample: Real, out: i32) -> bool {
    exists|scaled: Real|
        #[trigger] answers(ops, Operation::Binary(BinaryFunction::Mul, Real::of_bits(AMPLITUDE_BITS), sample), scaled)
            && out == scaled.truncated_to_i32()
}

/// The 32-bit sample for a sample of a signal.
pub fn quantize<F: Fn(Operation) -> Real>(sample: Real, ops: &F) -> (result: i32)
    requires
        serves_all(ops),
    ensures
        quantized(ops, sample, result),
{
    binary(ops, BinaryFunction::Mul, Real::amplitude(), sample).truncate_to_i32()
}

/// Renders the signal: the samples of `seconds` seconds at `samplerate`
/// samples per second, in order.
pub fn render<F: Fn(Operation) -> Real>(sound: Sound, samplerate: u32, seconds: Real, ops: &F) -> (result: Vec<Real>)
    requires
        serves_all(ops),
        sound@.iterable(),
    ensures
        rendered(sound@, samplerate, seconds, ops, result@),
{
    let rate = Real::from_u32(samplerate);
    let mut generator = sound.iter(rate, ops);
    let ghost start = generator@;
    let product = binary(ops, BinaryFunction::Mul, seconds, rate);
    let count = product.truncate();
    let mut samples: Vec<Real> = Vec::new();
    let mut i: i64 = 0;
    while i < count
        invariant
            serves_all(ops),
            0 <= i,
            count >= 0 ==> i <= count,
            count < 0 ==> i == 0,
            count == product.truncated(),
            samples.len() == i,
            generator@.well_formed(),
            streams(start, ops, samples@, generator@),
        decreases count - i,
    {
        let ghost middle = generator@;
        let ghost so_far = samples@;
        let sample = generator.next(ops);
        samples.push(sample);
        proof {
            assert(samples@.drop_last() =~= so_far);
            assert(middle.well_formed());
        }
        i += 1;
    }
    proof {
        assert(generator@.well_formed());
        assert(sample_count(product) == samples.len());
    }
    samples
}

} // verus!
