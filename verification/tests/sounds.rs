use soundcalc::function::{PrimitiveRealFunction1, PrimitiveRealFunction2, RealFunction};
use soundcalc::number::{BinaryFunction, Operation, Real, UnaryFunction};
use soundcalc::stream::{quantize, render, Complex, SoundIter};
use soundcalc::value::{Sound, Value};
use std::cell::Cell;

fn number(x: f64) -> Real {
    Real::from_bits(x.to_bits())
}

fn float(x: Real) -> f64 {
    f64::from_bits(x.to_bits())
}

fn arithmetic(operation: Operation) -> Real {
    number(match operation {
        Operation::Unary(function, x) => {
            let x = float(x);
            match function {
                UnaryFunction::Sin => x.sin(),
                UnaryFunction::Cos => x.cos(),
                UnaryFunction::Tan => x.tan(),
                UnaryFunction::Ln => x.ln(),
                UnaryFunction::Log10 => x.log10(),
                UnaryFunction::Exp => x.exp(),
            }
        }
        Operation::Binary(function, x, y) => {
            let (x, y) = (float(x), float(y));
            match function {
                BinaryFunction::Add => x + y,
                BinaryFunction::Sub => x - y,
                BinaryFunction::Mul => x * y,
                BinaryFunction::Div => x / y,
                BinaryFunction::Pow => x.powf(y),
                BinaryFunction::Max => x.max(y),
                BinaryFunction::Min => x.min(y),
            }
        }
        Operation::Random(_) => 0.5,
    })
}

fn constant(x: f64) -> Sound {
    Sound::Const(number(x))
}

fn boxed(sound: Sound) -> Box<Sound> {
    Box::new(sound)
}

fn take(sound: Sound, samplerate: f64, n: usize) -> Vec<f64> {
    let mut generator = sound.iter(number(samplerate), &arithmetic);
    (0..n).map(|_| float(generator.next(&arithmetic))).collect()
}

fn close(a: f64, b: f64, tolerance: f64) -> bool {
    (a - b).abs() <= tolerance
}

#[test]
fn a_constant_yields_its_value_at_every_call() {
    for samplerate in [1.0, 10.0, 44100.0, 0.5] {
        for value in [0.5, -3.0, 0.0] {
            let samples = take(constant(value), samplerate, 100);
            assert!(samples.iter().all(|&x| x == value));
        }
    }
}

#[test]
fn a_ramp_yields_intercept_plus_slope_times_time() {
    let (slope, intercept, samplerate) = (3.0, -1.0, 100.0);
    let samples = take(Sound::Linear { slope: number(slope), intercept: number(intercept) }, samplerate, 1000);
    for (n, &x) in samples.iter().enumerate() {
        assert!(close(x, intercept + slope * n as f64 / samplerate, 1e-9), "{}", n);
    }
    assert_eq!(samples[0], -1.0);
    assert_eq!(samples[1], -1.0 + 3.0 / 100.0);
}

#[test]
fn an_oscillator_yields_the_sine() {
    let (frequency, samplerate) = (440.0, 44100.0);
    let samples = take(Sound::Sin { frequency: number(frequency), phase: number(0.0) }, samplerate, 2000);
    for (n, &x) in samples.iter().enumerate() {
        let expected = (std::f64::consts::TAU * frequency * n as f64 / samplerate).sin();
        assert!(close(x, expected, (n as f64 + 1.0) * 1e-14), "{}", n);
    }
    assert_eq!(samples[0], 0.0);
}

#[test]
fn an_oscillator_starts_at_its_phase() {
    let samples = take(Sound::Sin { frequency: number(1.0), phase: number(0.5) }, 8.0, 2);
    assert_eq!(samples[0], 0.5f64.sin());
    let angle = std::f64::consts::TAU * 1.0 / 8.0;
    let expected = 0.5f64.sin() * angle.cos() + 0.5f64.cos() * angle.sin();
    assert_eq!(samples[1], expected);
}

#[test]
fn an_exponential_yields_a_geometric_sequence() {
    let (coefficient, intercept, samplerate) = (-2.0, 3.0, 50.0);
    let samples = take(
        Sound::Exp { coefficient: number(coefficient), intercept: number(intercept) },
        samplerate,
        200,
    );
    for (n, &x) in samples.iter().enumerate() {
        assert!(close(x, intercept * (coefficient * n as f64 / samplerate).exp(), 1e-12), "{}", n);
    }
    assert_eq!(samples[0], 3.0);
    assert_eq!(samples[1], 3.0 * (-2.0f64 / 50.0).exp());
}

#[test]
fn noise_asks_the_service_at_every_call() {
    let calls = Cell::new(0u32);
    let ops = |operation: Operation| match operation {
        Operation::Random(_) => {
            calls.set(calls.get() + 1);
            number(calls.get() as f64 / 8.0)
        }
        other => arithmetic(other),
    };
    let mut generator = Sound::Rand.iter(number(10.0), &ops);
    assert_eq!(generator, SoundIter::Rand);
    assert_eq!(float(generator.next(&ops)), 0.125);
    assert_eq!(float(generator.next(&ops)), 0.25);
    assert_eq!(calls.get(), 2);
}

#[test]
fn combinators_combine_the_samples_of_their_children() {
    let ramp = || Sound::Linear { slope: number(1.0), intercept: number(1.0) };
    let half = || constant(0.5);
    assert_eq!(take(Sound::Minus(boxed(ramp())), 1.0, 3), vec![-1.0, -2.0, -3.0]);
    assert_eq!(take(Sound::Reciprocal(boxed(ramp())), 1.0, 3), vec![1.0, 0.5, 1.0 / 3.0]);
    assert_eq!(take(Sound::Add(boxed(ramp()), boxed(half())), 1.0, 3), vec![1.5, 2.5, 3.5]);
    assert_eq!(take(Sound::Sub(boxed(ramp()), boxed(half())), 1.0, 3), vec![0.5, 1.5, 2.5]);
    assert_eq!(take(Sound::Sub(boxed(half()), boxed(ramp())), 1.0, 3), vec![-0.5, -1.5, -2.5]);
    assert_eq!(take(Sound::Mul(boxed(ramp()), boxed(half())), 1.0, 3), vec![0.5, 1.0, 1.5]);
    assert_eq!(take(Sound::Div(boxed(ramp()), boxed(half())), 1.0, 3), vec![2.0, 4.0, 6.0]);
    assert_eq!(take(Sound::Div(boxed(half()), boxed(ramp())), 1.0, 3), vec![0.5, 0.25, 0.5 / 3.0]);
    assert_eq!(take(Sound::Pow(boxed(ramp()), boxed(constant(2.0))), 1.0, 3), vec![1.0, 4.0, 9.0]);
    assert_eq!(take(Sound::Pow(boxed(constant(2.0)), boxed(ramp())), 1.0, 3), vec![2.0, 4.0, 8.0]);
}

#[test]
fn the_left_child_is_advanced_before_the_right_one() {
    let calls = Cell::new(0u32);
    let ops = |operation: Operation| match operation {
        Operation::Random(_) => {
            calls.set(calls.get() + 1);
            number(calls.get() as f64)
        }
        other => arithmetic(other),
    };
    let mut generator = Sound::Sub(boxed(Sound::Rand), boxed(Sound::Rand)).iter(number(1.0), &ops);
    assert_eq!(float(generator.next(&ops)), 1.0 - 2.0);
    assert_eq!(float(generator.next(&ops)), 3.0 - 4.0);
}

#[test]
fn noise_is_numbered_in_the_order_of_the_draws() {
    let ops = |operation: Operation| match operation {
        Operation::Random(serial) => number(serial as f64),
        other => arithmetic(other),
    };
    let max = RealFunction::Binary(PrimitiveRealFunction2(BinaryFunction::Max));
    // ((r0 - r1) * 10) + max(r2 * 100, r3 * 1000)
    let sound = Sound::Add(
        boxed(Sound::Mul(boxed(Sound::Sub(boxed(Sound::Rand), boxed(Sound::Rand))), boxed(constant(10.0)))),
        boxed(Sound::Function(
            max,
            vec![
                Value::Sound(Sound::Mul(boxed(Sound::Rand), boxed(constant(100.0)))),
                Value::Sound(Sound::Mul(boxed(Sound::Rand), boxed(constant(1000.0)))),
            ],
            Vec::new(),
        )),
    );
    let mut generator = sound.iter(number(1.0), &ops);
    let expected = (0.0 - 1.0) * 10.0 + f64::max(2.0 * 100.0, 3.0 * 1000.0);
    assert_eq!(float(generator.next(&ops)), expected);
    assert_eq!(float(generator.next(&ops)), expected);
    assert_eq!(generator.advance(&ops, 5), (number((5.0 - 6.0) * 10.0 + 8000.0), 9));
    assert_eq!(SoundIter::Rand.advance(&ops, u64::MAX), (number(u64::MAX as f64), 0));
}

#[test]
fn noise_of_the_generator_of_the_machine_is_in_the_unit_interval() {
    let ops = |operation: Operation| match operation {
        Operation::Random(_) => number(rand::Rng::gen::<f64>(&mut rand::thread_rng())),
        other => arithmetic(other),
    };
    let mut generator = Sound::Rand.iter(number(44100.0), &ops);
    let samples: Vec<f64> = (0..1000).map(|_| float(generator.next(&ops))).collect();
    assert!(samples.iter().all(|&x| (0.0..1.0).contains(&x)));
    assert!(samples.iter().any(|&x| x != samples[0]));
}

#[test]
fn a_function_signal_applies_the_function_to_every_sample() {
    let ramp = Sound::Linear { slope: number(1.0), intercept: number(0.0) };
    let exp = RealFunction::Unary(PrimitiveRealFunction1(UnaryFunction::Exp));
    let sound = Sound::Function(exp, vec![Value::Sound(ramp)], Vec::new());
    assert!(sound.is_iterable());
    assert_eq!(take(sound, 1.0, 3), vec![1.0, 1.0f64.exp(), 2.0f64.exp()]);
}

#[test]
fn a_function_signal_keeps_its_real_arguments() {
    let ramp = || Value::Sound(Sound::Linear { slope: number(1.0), intercept: number(0.0) });
    let max = RealFunction::Binary(PrimitiveRealFunction2(BinaryFunction::Max));
    let pow = RealFunction::Binary(PrimitiveRealFunction2(BinaryFunction::Pow));
    assert_eq!(
        take(Sound::Function(max, vec![ramp(), Value::Real(number(1.5))], Vec::new()), 1.0, 4),
        vec![1.5, 1.5, 2.0, 3.0]
    );
    assert_eq!(
        take(Sound::Function(pow, vec![Value::Real(number(2.0)), ramp()], Vec::new()), 1.0, 4),
        vec![1.0, 2.0, 4.0, 8.0]
    );
    assert_eq!(
        take(Sound::Function(pow, vec![ramp(), ramp()], Vec::new()), 1.0, 4),
        vec![1.0, 1.0, 4.0, 27.0]
    );
}

#[test]
fn a_function_signal_ignores_arguments_beyond_its_parameters() {
    let sin = RealFunction::Unary(PrimitiveRealFunction1(UnaryFunction::Sin));
    let sound = Sound::Function(sin, vec![Value::Real(number(0.5)), Value::Bool(true)], Vec::new());
    assert!(sound.is_iterable());
    assert_eq!(take(sound, 1.0, 2), vec![0.5f64.sin(), 0.5f64.sin()]);
    let missing = Sound::Function(sin, Vec::new(), Vec::new());
    assert!(missing.is_iterable());
    assert_eq!(take(missing, 1.0, 1), vec![0.0]);
}

#[test]
fn a_function_signal_over_a_string_has_no_generator() {
    let sin = RealFunction::Unary(PrimitiveRealFunction1(UnaryFunction::Sin));
    let sound = Sound::Function(sin, vec![Value::String("a".to_string())], Vec::new());
    assert!(!sound.is_iterable());
    assert!(!Sound::Minus(boxed(sound)).is_iterable());
    assert!(constant(1.0).is_iterable());
}

#[test]
fn the_generator_holds_the_state_of_the_recurrences() {
    let generator = Sound::Linear { slope: number(10.0), intercept: number(2.0) }.iter(number(5.0), &arithmetic);
    assert_eq!(generator, SoundIter::Linear { next: number(2.0), difference: number(2.0) });
    let generator = Sound::Exp { coefficient: number(0.0), intercept: number(2.0) }.iter(number(5.0), &arithmetic);
    assert_eq!(generator, SoundIter::Exp { next: number(2.0), ratio: number(1.0) });
    let generator = Sound::Sin { frequency: number(0.0), phase: number(0.0) }.iter(number(5.0), &arithmetic);
    assert_eq!(
        generator,
        SoundIter::Sin {
            next: Complex { re: number(1.0), im: number(0.0) },
            ratio: Complex { re: number(1.0), im: number(0.0) },
        }
    );
}

#[test]
fn rotate_is_the_complex_product() {
    let z = Complex { re: number(1.0), im: number(2.0) };
    let w = Complex { re: number(3.0), im: number(-4.0) };
    assert_eq!(z.rotate(w, &arithmetic), Complex { re: number(11.0), im: number(2.0) });
    let polar = Complex::from_polar(number(2.0), number(0.5), &arithmetic);
    assert_eq!(polar, Complex { re: number(2.0 * 0.5f64.cos()), im: number(2.0 * 0.5f64.sin()) });
}

#[test]
fn shifting_moves_the_closed_forms() {
    let t = 0.25;
    assert_eq!(constant(2.0).shift(number(t), &arithmetic), constant(2.0));
    assert_eq!(Sound::Rand.shift(number(t), &arithmetic), Sound::Rand);
    assert_eq!(
        Sound::Linear { slope: number(3.0), intercept: number(1.0) }.shift(number(t), &arithmetic),
        Sound::Linear { slope: number(3.0), intercept: number(3.0 * t + 1.0) }
    );
    assert_eq!(
        Sound::Sin { frequency: number(5.0), phase: number(0.5) }.shift(number(t), &arithmetic),
        Sound::Sin { frequency: number(5.0), phase: number(std::f64::consts::TAU * 5.0 * t + 0.5) }
    );
    assert_eq!(
        Sound::Exp { coefficient: number(-2.0), intercept: number(3.0) }.shift(number(t), &arithmetic),
        Sound::Exp { coefficient: number(-2.0), intercept: number(3.0 * (-2.0 * t).exp()) }
    );
}

#[test]
fn shifting_goes_through_the_combinators() {
    let ramp = |intercept: f64| Sound::Linear { slope: number(1.0), intercept: number(intercept) };
    let t = number(2.0);
    assert_eq!(Sound::Minus(boxed(ramp(0.0))).shift(t, &arithmetic), Sound::Minus(boxed(ramp(2.0))));
    assert_eq!(Sound::Reciprocal(boxed(ramp(0.0))).shift(t, &arithmetic), Sound::Reciprocal(boxed(ramp(2.0))));
    assert_eq!(
        Sound::Add(boxed(ramp(0.0)), boxed(ramp(1.0))).shift(t, &arithmetic),
        Sound::Add(boxed(ramp(2.0)), boxed(ramp(3.0)))
    );
    assert_eq!(
        Sound::Sub(boxed(ramp(0.0)), boxed(ramp(1.0))).shift(t, &arithmetic),
        Sound::Sub(boxed(ramp(2.0)), boxed(ramp(3.0)))
    );
    assert_eq!(
        Sound::Mul(boxed(ramp(0.0)), boxed(ramp(1.0))).shift(t, &arithmetic),
        Sound::Mul(boxed(ramp(2.0)), boxed(ramp(3.0)))
    );
    assert_eq!(
        Sound::Div(boxed(ramp(0.0)), boxed(ramp(1.0))).shift(t, &arithmetic),
        Sound::Div(boxed(ramp(2.0)), boxed(ramp(3.0)))
    );
    assert_eq!(
        Sound::Pow(boxed(ramp(0.0)), boxed(ramp(1.0))).shift(t, &arithmetic),
        Sound::Pow(boxed(ramp(2.0)), boxed(ramp(3.0)))
    );
}

#[test]
fn shifting_a_function_signal_shifts_its_signal_arguments_only() {
    let ramp = |intercept: f64| Value::Sound(Sound::Linear { slope: number(1.0), intercept: number(intercept) });
    let max = RealFunction::Binary(PrimitiveRealFunction2(BinaryFunction::Max));
    let sound = Sound::Function(
        max,
        vec![ramp(0.0), Value::Real(number(7.0))],
        vec![("t1".to_string(), ramp(1.0)), ("k".to_string(), Value::Bool(true))],
    );
    assert_eq!(
        sound.shift(number(2.0), &arithmetic),
        Sound::Function(
            max,
            vec![ramp(2.0), Value::Real(number(7.0))],
            vec![("t1".to_string(), ramp(3.0)), ("k".to_string(), Value::Bool(true))],
        )
    );
}

#[test]
fn shifting_a_value_leaves_all_but_signals() {
    assert_eq!(Value::Real(number(1.0)).shift(number(2.0), &arithmetic), Value::Real(number(1.0)));
    assert_eq!(
        Value::String("a".to_string()).shift(number(2.0), &arithmetic),
        Value::String("a".to_string())
    );
    assert_eq!(
        Value::Sound(Sound::Linear { slope: number(1.0), intercept: number(0.0) }).shift(number(2.0), &arithmetic),
        Value::Sound(Sound::Linear { slope: number(1.0), intercept: number(2.0) })
    );
}

fn same_signal(a: &Sound, b: &Sound) -> bool {
    let x = take(a.duplicate(), 1000.0, 50);
    let y = take(b.duplicate(), 1000.0, 50);
    x.iter().zip(y.iter()).all(|(&p, &q)| close(p, q, 1e-9))
}

#[test]
fn two_shifts_are_the_shift_by_the_sum() {
    let sound = || {
        Sound::Add(
            boxed(Sound::Mul(
                boxed(Sound::Sin { frequency: number(3.0), phase: number(0.25) }),
                boxed(Sound::Exp { coefficient: number(-1.5), intercept: number(2.0) }),
            )),
            boxed(Sound::Minus(boxed(Sound::Linear { slope: number(0.5), intercept: number(1.0) }))),
        )
    };
    for (t1, t2) in [(0.1, 0.2), (-0.3, 0.05), (1.0, -1.0), (0.0, 0.0)] {
        let twice = sound().shift(number(t1), &arithmetic).shift(number(t2), &arithmetic);
        let once = sound().shift(number(t1 + t2), &arithmetic);
        assert!(same_signal(&twice, &once), "{} {}", t1, t2);
    }
}

#[test]
fn a_shifted_signal_is_the_signal_at_a_later_time() {
    let sound = Sound::Sin { frequency: number(2.0), phase: number(0.0) };
    let shifted = sound.duplicate().shift(number(0.01), &arithmetic);
    let plain = take(sound, 1000.0, 60);
    let moved = take(shifted, 1000.0, 50);
    for n in 0..50 {
        assert!(close(moved[n], plain[n + 10], 1e-9), "{}", n);
    }
}

#[test]
fn rendering_a_constant_gives_ten_equal_samples() {
    let samples = render(constant(0.5), 10, number(1.0), &arithmetic);
    assert_eq!(samples, vec![number(0.5); 10]);
}

#[test]
fn rendering_takes_duration_times_rate_samples_truncated() {
    let ramp = || Sound::Linear { slope: number(1.0), intercept: number(0.0) };
    assert_eq!(render(ramp(), 4, number(0.99), &arithmetic).len(), 3);
    assert_eq!(render(ramp(), 4, number(1.0), &arithmetic).len(), 4);
    assert_eq!(render(ramp(), 44100, number(0.5), &arithmetic).len(), 22050);
    assert_eq!(render(ramp(), 4, number(0.0), &arithmetic).len(), 0);
    assert_eq!(render(ramp(), 4, number(-1.0), &arithmetic).len(), 0);
    assert_eq!(render(ramp(), 0, number(5.0), &arithmetic).len(), 0);
    assert_eq!(render(ramp(), 4, number(f64::NAN), &arithmetic).len(), 0);
    let samples: Vec<f64> = render(ramp(), 4, number(1.0), &arithmetic).into_iter().map(float).collect();
    assert_eq!(samples, vec![0.0, 0.25, 0.5, 0.75]);
}

#[test]
fn quantize_scales_by_the_largest_amplitude() {
    assert_eq!(quantize(number(0.0), &arithmetic), 0);
    assert_eq!(quantize(number(1.0), &arithmetic), i32::MAX);
    assert_eq!(quantize(number(-1.0), &arithmetic), -i32::MAX);
    assert_eq!(quantize(number(0.5), &arithmetic), (i32::MAX as f64 * 0.5) as i32);
    assert_eq!(quantize(number(2.0), &arithmetic), i32::MAX);
    assert_eq!(quantize(number(-2.0), &arithmetic), i32::MIN);
    assert_eq!(quantize(number(f64::NAN), &arithmetic), 0);
    assert_eq!(quantize(number(0.123456789), &arithmetic), (i32::MAX as f64 * 0.123456789) as i32);
}

#[test]
fn duplicate_copies_a_signal() {
    let max = RealFunction::Binary(PrimitiveRealFunction2(BinaryFunction::Max));
    let sound = Sound::Function(
        max,
        vec![Value::Sound(Sound::Rand), Value::String("s".to_string())],
        vec![("n".to_string(), Value::Real(number(1.0)))],
    );
    assert_eq!(sound.duplicate(), sound);
    assert_eq!(Value::Sound(sound.duplicate()).duplicate(), Value::Sound(sound));
}
