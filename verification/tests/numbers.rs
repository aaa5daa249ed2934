use og_param::number::{
    is_less, is_off_step, is_same_number, number_of_float, number_of_integer, Float32, Float64,
};

fn floats() -> Vec<f32> {
    let mut list = vec![
        0.0,
        -0.0,
        1.0,
        -1.0,
        0.1,
        0.25,
        0.3,
        1.0e-3,
        1.0e-6,
        2.0e-6,
        1.0 / 3.0,
        2.5,
        10.0,
        99.9,
        100.0,
        -7.25,
        65536.0,
        16777216.0,
        1.0e10,
        3.0e20,
        f32::MAX,
        f32::MIN,
        f32::MIN_POSITIVE,
        f32::from_bits(1),
        f32::from_bits(0x007F_FFFF),
        f32::EPSILON,
    ];
    let mut state: u32 = 12345;
    for _ in 0..40 {
        state = state.wrapping_mul(1_664_525).wrapping_add(1_013_904_223);
        let value = f32::from_bits(state);
        if value.is_finite() {
            list.push(value);
        }
    }
    list
}

fn off_step(value: f64, minimum: f64, step: f64) -> bool {
    let quotient = (value - minimum) / step;
    (quotient - quotient.round()).abs() > 1e-6
}

#[test]
fn floats_are_ordered_as_numbers() {
    let mut list = floats();
    list.push(f32::INFINITY);
    list.push(f32::NEG_INFINITY);
    list.push(f32::NAN);
    for left in &list {
        for right in &list {
            let a = number_of_float(left.to_bits());
            let b = number_of_float(right.to_bits());
            assert_eq!(is_less(a, b), left < right, "{left} {right}");
            assert_eq!(is_same_number(a, b), left == right, "{left} {right}");
        }
    }
}

#[test]
fn integers_and_floats_are_compared_exactly() {
    assert!(is_less(number_of_integer(3), number_of_float(3.5f32.to_bits())));
    assert!(is_same_number(number_of_integer(-7), number_of_float((-7.0f32).to_bits())));
    assert!(is_less(number_of_integer(i32::MIN), number_of_integer(i32::MAX)));
    assert!(is_less(number_of_float(2147483500.0f32.to_bits()), number_of_integer(i32::MAX)));
}

#[test]
fn float_steps_are_checked_as_doubles_are() {
    let list = floats();
    let mut checked = 0;
    for minimum in &list {
        for value in &list {
            if value < minimum {
                continue;
            }
            for step in &list {
                let expected = off_step(f64::from(*value), f64::from(*minimum), f64::from(*step));
                let actual = is_off_step(
                    number_of_float(value.to_bits()),
                    number_of_float(minimum.to_bits()),
                    number_of_float(step.to_bits()),
                );
                assert_eq!(actual, expected, "({value} - {minimum}) / {step}");
                checked += 1;
            }
        }
    }
    assert!(checked > 10_000);
}

#[test]
fn decimal_steps_near_the_grid_are_checked_as_doubles_are() {
    for step in [0.1f32, 0.01, 0.05, 0.3, 0.001, 2.5] {
        for minimum in [0.0f32, -10.0, 1.0, 0.7] {
            for count in 0..400 {
                let value = minimum + step * count as f32;
                let expected = off_step(f64::from(value), f64::from(minimum), f64::from(step));
                let actual = is_off_step(
                    number_of_float(value.to_bits()),
                    number_of_float(minimum.to_bits()),
                    number_of_float(step.to_bits()),
                );
                assert_eq!(actual, expected, "{minimum} + {count} * {step}");
            }
        }
    }
}

#[test]
fn integer_steps_are_checked_as_doubles_are() {
    let list = [
        0, 1, -1, 2, 3, 7, 10, 100, 127, 1000, 65535, 65536, 1_000_000, 3_000_001, 123_456_789,
        i32::MAX, i32::MIN, -5, -32768,
    ];
    for minimum in list {
        for value in list {
            if value < minimum {
                continue;
            }
            for step in list {
                let expected = off_step(value.into(), minimum.into(), step.into());
                let actual = is_off_step(
                    number_of_integer(value),
                    number_of_integer(minimum),
                    number_of_integer(step),
                );
                assert_eq!(actual, expected, "({value} - {minimum}) / {step}");
            }
        }
    }
}

#[test]
fn a_step_without_a_number_allows_everything() {
    for special in [f32::NAN, f32::INFINITY, f32::NEG_INFINITY, 0.0] {
        assert!(!is_off_step(
            number_of_float(1.3f32.to_bits()),
            number_of_integer(0),
            number_of_float(special.to_bits())
        ));
    }
    assert!(!is_off_step(
        number_of_integer(1),
        number_of_float(f32::NEG_INFINITY.to_bits()),
        number_of_integer(2)
    ));
}

#[test]
fn the_tolerance_is_a_millionth_of_a_step() {
    // A millionth of the step is still on it; two millionths are not.
    let step = number_of_integer(1_000_000);
    assert!(!is_off_step(number_of_integer(1_000_001), number_of_integer(0), step));
    assert!(is_off_step(number_of_integer(1_000_002), number_of_integer(0), step));
}

#[test]
fn equality_of_floats_follows_their_numbers() {
    let float = |value: f32| Float32 { bits: value.to_bits() };
    assert!(float(0.0) == float(-0.0));
    assert!(float(1.5) == float(1.5));
    assert!(float(1.5) != float(1.25));
    assert!(float(f32::NAN) != float(f32::NAN));
    let double = |value: f64| Float64 { bits: value.to_bits() };
    assert!(double(0.0) == double(-0.0));
    assert!(double(2.5) == double(2.5));
    assert!(double(f64::INFINITY) == double(f64::INFINITY));
    assert!(double(f64::NAN) != double(f64::NAN));
}
