use soundcalc::number::{binary, random, unary, BinaryFunction, Operation, Real, UnaryFunction};

fn number(x: f64) -> Real {
    Real::from_bits(x.to_bits())
}

fn float(x: Real) -> f64 {
    f64::from_bits(x.to_bits())
}

fn samples() -> Vec<f64> {
    vec![
        0.0,
        -0.0,
        1.0,
        -1.0,
        0.5,
        -0.5,
        1e-6,
        -1e-6,
        1e-300,
        5e-324,
        -5e-324,
        2147483647.0,
        2147483648.0,
        -2147483648.0,
        -2147483649.0,
        4294967295.0,
        9007199254740992.0,
        9223372036854775807.0,
        -9223372036854775808.0,
        1e19,
        -1e19,
        1e300,
        -1e300,
        3.99,
        -3.99,
        1023.5,
        f64::MAX,
        f64::MIN,
        f64::MIN_POSITIVE,
        f64::INFINITY,
        f64::NEG_INFINITY,
        f64::NAN,
        -f64::NAN,
    ]
}

#[test]
fn bits_go_in_and_out_unchanged() {
    assert_eq!(Real::from_bits(0x3FE0_0000_0000_0000).to_bits(), 0.5f64.to_bits());
    assert_eq!(float(number(-2.75)), -2.75);
}

#[test]
fn the_constants_are_the_numbers_they_are_named_after() {
    assert_eq!(float(Real::zero()), 0.0);
    assert_eq!(float(Real::one()), 1.0);
    assert_eq!(float(Real::minus_one()), -1.0);
    assert_eq!(Real::tau().to_bits(), std::f64::consts::TAU.to_bits());
    assert_eq!(float(Real::tolerance()), 1e-6);
    assert_eq!(float(Real::amplitude()), i32::MAX as f64);
}

#[test]
fn negate_flips_the_sign_as_the_machine_does() {
    for x in samples() {
        assert_eq!(number(x).negate().to_bits(), (-x).to_bits());
    }
}

#[test]
fn abs_clears_the_sign_as_the_machine_does() {
    for x in samples() {
        assert_eq!(number(x).abs().to_bits(), x.abs().to_bits());
    }
}

#[test]
fn is_nan_agrees_with_the_machine() {
    for x in samples() {
        assert_eq!(number(x).is_nan(), x.is_nan());
    }
}

#[test]
fn comparisons_agree_with_the_machine() {
    for x in samples() {
        for y in samples() {
            assert_eq!(number(x).less_than(number(y)), x < y, "{} < {}", x, y);
            assert_eq!(number(x).greater_than(number(y)), x > y, "{} > {}", x, y);
            assert_eq!(number(x).at_most(number(y)), x <= y, "{} <= {}", x, y);
        }
    }
}

#[test]
fn from_u32_is_the_exact_conversion() {
    for n in [0u32, 1, 2, 3, 4, 7, 8, 10, 255, 256, 44100, 65535, 65536, 1 << 30, (1 << 31) - 1, 1 << 31, u32::MAX - 1, u32::MAX] {
        assert_eq!(Real::from_u32(n).to_bits(), (n as f64).to_bits(), "{}", n);
    }
}

#[test]
fn truncate_is_the_conversion_of_the_machine() {
    for x in samples() {
        assert_eq!(number(x).truncate(), x as i64, "{}", x);
        assert_eq!(number(x).truncate_to_i32(), x as i32, "{}", x);
    }
}

#[test]
fn truncate_rounds_toward_zero() {
    assert_eq!(number(441000.9).truncate(), 441000);
    assert_eq!(number(-441000.9).truncate(), -441000);
    assert_eq!(number(0.999).truncate(), 0);
    assert_eq!(number(-0.999).truncate(), 0);
    assert_eq!(number(1e10).truncate_to_i32(), i32::MAX);
    assert_eq!(number(-1e10).truncate_to_i32(), i32::MIN);
}

#[test]
fn the_service_is_asked_with_the_operands_in_order() {
    let ops = |operation: Operation| match operation {
        Operation::Unary(UnaryFunction::Exp, x) => number(float(x).exp()),
        Operation::Unary(_, x) => x,
        Operation::Binary(BinaryFunction::Sub, x, y) => number(float(x) - float(y)),
        Operation::Binary(BinaryFunction::Div, x, y) => number(float(x) / float(y)),
        Operation::Binary(_, x, _) => x,
        Operation::Random(_) => number(0.25),
    };
    assert_eq!(float(binary(&ops, BinaryFunction::Sub, number(5.0), number(3.0))), 2.0);
    assert_eq!(float(binary(&ops, BinaryFunction::Div, number(1.0), number(4.0))), 0.25);
    assert_eq!(float(unary(&ops, UnaryFunction::Exp, number(0.0))), 1.0);
    assert_eq!(float(random(&ops, 7)), 0.25);
}
