use michelangelo::number::Number;
use michelangelo::number::INFINITY_BITS;
use michelangelo::number::NAN_BITS;
use michelangelo::number::NEGATIVE_ZERO_BITS;
use michelangelo::number::ONE_BITS;
use michelangelo::number::TWO_BITS;
use michelangelo::number::ZERO_BITS;
use michelangelo::path::Direction;
use michelangelo::path::Point;

fn num(value: f32) -> Number {
    Number::from_bits(value.to_bits())
}

fn val(number: Number) -> f32 {
    f32::from_bits(number.to_bits())
}

#[test]
fn arithmetic_on_patterns() {
    assert_eq!(val(num(1.5).plus(num(2.25))), 3.75);
    assert_eq!(val(num(1.5).minus(num(2.25))), -0.75);
    assert_eq!(val(num(1.5).times(num(4.0))), 6.0);
    assert_eq!(val(num(1.5).over(num(4.0))), 0.375);
    assert_eq!(val(num(1.5).negated()), -1.5);
    assert_eq!(val(num(5.0).halved()), 2.5);
}

#[test]
fn rounding_is_that_of_the_floats() {
    assert_eq!(num(0.1).plus(num(0.2)).to_bits(), (0.1f32 + 0.2f32).to_bits());
    assert_eq!(num(1.0).over(num(3.0)).to_bits(), (1.0f32 / 3.0f32).to_bits());
}

#[test]
fn adding_zero_keeps_the_value() {
    for value in [0.0f32, -0.0, 1.0, -7.25, f32::MAX, f32::INFINITY, f32::MIN_POSITIVE] {
        assert_eq!(val(num(value).plus(num(0.0))), value);
        assert_eq!(val(num(value).plus(num(-0.0))), value);
    }
}

#[test]
fn zeros_of_both_signs() {
    assert!(num(0.0).is_zero());
    assert!(num(-0.0).is_zero());
    assert!(!num(1.0e-40).is_zero());
    assert_eq!(Number::zero().to_bits(), 0);
}

#[test]
fn results_that_are_no_number_have_one_pattern() {
    let nan = num(0.0).over(num(0.0));
    assert!(nan.is_nan());
    assert_eq!(nan.to_bits(), 0x7fc0_0000);
    assert_eq!(num(f32::INFINITY).minus(num(f32::INFINITY)).to_bits(), 0x7fc0_0000);
    assert_eq!(num(f32::NAN).negated().to_bits(), 0x7fc0_0000);
    assert!(!num(f32::INFINITY).is_nan());
    assert!(!num(f32::NEG_INFINITY).is_nan());
}

#[test]
fn points_pushed_and_pulled() {
    let point = Point::from_bits(1.0f32.to_bits(), 2.0f32.to_bits());
    let direction = Direction::from_bits(0.5f32.to_bits(), (-1.0f32).to_bits());
    let pushed = point.pushed(direction, num(4.0));
    assert_eq!((val(pushed.x), val(pushed.y)), (3.0, -2.0));
    let pulled = point.pulled(direction, num(4.0));
    assert_eq!((val(pulled.x), val(pulled.y)), (-1.0, 6.0));
}

#[test]
fn named_patterns_are_those_of_the_floats() {
    assert_eq!(ZERO_BITS, 0.0f32.to_bits());
    assert_eq!(NEGATIVE_ZERO_BITS, (-0.0f32).to_bits());
    assert_eq!(ONE_BITS, 1.0f32.to_bits());
    assert_eq!(TWO_BITS, 2.0f32.to_bits());
    assert_eq!(INFINITY_BITS, f32::INFINITY.to_bits());
    assert!(f32::from_bits(NAN_BITS).is_nan());
}

#[test]
fn magnitude_drops_the_sign() {
    assert_eq!(num(-2.0).magnitude(), 2.0f32.to_bits());
    assert_eq!(num(2.0).magnitude(), 2.0f32.to_bits());
    assert_eq!(num(-0.0).magnitude(), 0);
}

#[test]
fn negation_turns_the_sign_bit() {
    for value in [0.0f32, -0.0, 1.5, -7.25, f32::MAX, f32::INFINITY, f32::MIN_POSITIVE, 1.0e-40] {
        assert_eq!(num(value).negated().to_bits(), value.to_bits() ^ 0x8000_0000);
        assert_eq!(num(value).negated().negated().to_bits(), value.to_bits());
    }
}
