use num::complex::Complex64;
use soundcalc::number::{BinaryFunction, Operation, Real, UnaryFunction};
use soundcalc::stream::Complex;
use soundcalc::value::Sound;

fn number(x: f64) -> Real {
    Real::from_bits(x.to_bits())
}

fn float(x: Real) -> f64 {
    f64::from_bits(x.to_bits())
}

fn arithmetic(operation: Operation) -> Real {
    number(match operation {
        Operation::Unary(function, x) => {
            let x = float(x);
            match function {
                UnaryFunction::Sin => x.sin(),
                UnaryFunction::Cos => x.cos(),
                UnaryFunction::Tan => x.tan(),
                UnaryFunction::Ln => x.ln(),
                UnaryFunction::Log10 => x.log10(),
                UnaryFunction::Exp => x.exp(),
            }
        }
        Operation::Binary(function, x, y) => {
            let (x, y) = (float(x), float(y));
            match function {
                BinaryFunction::Add => x + y,
                BinaryFunction::Sub => x - y,
                BinaryFunction::Mul => x * y,
                BinaryFunction::Div => x / y,
                BinaryFunction::Pow => x.powf(y),
                BinaryFunction::Max => x.max(y),
                BinaryFunction::Min => x.min(y),
            }
        }
        Operation::Random(_) => 0.5,
    })
}

fn complex(z: Complex64) -> Complex {
    Complex { re: number(z.re), im: number(z.im) }
}

#[test]
fn rotate_is_the_in_place_product_of_num() {
    let points = [(1.0, 0.0), (0.3, -0.7), (-2.5, 1.25), (1e-3, 1e3), (0.0, 0.0), (0.6, 0.8)];
    for &(a, b) in &points {
        for &(c, d) in &points {
            let mut expected = Complex64::new(a, b);
            expected *= Complex64::new(c, d);
            let found = complex(Complex64::new(a, b)).rotate(complex(Complex64::new(c, d)), &arithmetic);
            assert_eq!(found, complex(expected), "({}, {}) ({}, {})", a, b, c, d);
        }
    }
}

#[test]
fn from_polar_is_the_polar_form_of_num() {
    for r in [1.0, 0.5, 2.0, 0.0] {
        for theta in [0.0, 0.5, -1.25, 3.0, 100.0] {
            let found = Complex::from_polar(number(r), number(theta), &arithmetic);
            assert_eq!(found, complex(Complex64::from_polar(r, theta)), "{} {}", r, theta);
        }
    }
}

#[test]
fn an_oscillator_steps_as_a_rotation_of_num() {
    let (frequency, phase, samplerate) = (440.0, 0.25, 44100.0);
    let mut next = Complex64::from_polar(1., phase);
    let ratio = Complex64::from_polar(1., std::f64::consts::TAU * frequency / samplerate);
    let mut generator =
        Sound::Sin { frequency: number(frequency), phase: number(phase) }.iter(number(samplerate), &arithmetic);
    for n in 0..1000 {
        let expected = next.im;
        next *= ratio;
        assert_eq!(float(generator.next(&arithmetic)), expected, "{}", n);
    }
}
