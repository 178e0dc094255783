use assay::{Fixed, ParseFixedError};

#[test]
fn a_fraction_of_a_hit_is_a_whole_hit() {
    let damage = Fixed::from_micro(27_374_116);
    // 109 health at 27.374116 is 3.98 swings, which is four swings.
    assert_eq!(damage.hits_to_cover(Fixed::from_int(109)), Some(4));
    // Exactly three is three, not four.
    assert_eq!(Fixed::from_int(10).hits_to_cover(Fixed::from_int(30)), Some(3));
}

#[test]
fn fixed_an_attack_that_takes_nothing_off_never_finishes() {
    assert_eq!(Fixed::zero().hits_to_cover(Fixed::from_int(100)), None);
    assert_eq!(Fixed::from_int(-5).hits_to_cover(Fixed::from_int(100)), None);
}

#[test]
fn nothing_to_take_off_is_no_hits() {
    assert_eq!(Fixed::from_int(10).hits_to_cover(Fixed::zero()), Some(0));
}

#[test]
fn rogue_action_speed_is_exact() {
    // 7.8125% = 7 + 13/16, the value that forced micro over milli.
    let v: Fixed = "7.8125".parse().unwrap();
    assert_eq!(v.micro(), 7_812_500);
    assert_eq!(v.to_string(), "7.8125");
}

#[test]
fn addition_and_subtraction_are_exact() {
    let a = Fixed::from_micro(7_812_500);
    let b = Fixed::from_micro(2_187_500);
    assert_eq!((a + b).micro(), 10_000_000);
    assert_eq!((a - b).micro(), 5_625_000);
    assert_eq!((-a).micro(), -7_812_500);
}

#[test]
fn multiplication_uses_bankers_rounding() {
    // 1µ × 0.5 = 0.5µ, a tie, rounds to even 0.
    assert_eq!((Fixed::from_micro(1) * Fixed::from_micro(500_000)).micro(), 0);
    // 3µ × 0.5 = 1.5µ, a tie, rounds to even 2.
    assert_eq!((Fixed::from_micro(3) * Fixed::from_micro(500_000)).micro(), 2);
    // 5µ × 0.5 = 2.5µ, a tie, rounds to even 2.
    assert_eq!((Fixed::from_micro(5) * Fixed::from_micro(500_000)).micro(), 2);
    // Above the tie: 0.7µ rounds up.
    assert_eq!((Fixed::from_micro(7) * Fixed::from_micro(100_000)).micro(), 1);
}

#[test]
fn bankers_rounding_is_sign_symmetric() {
    assert_eq!((Fixed::from_micro(-3) * Fixed::from_micro(500_000)).micro(), -2);
    assert_eq!((Fixed::from_micro(-1) * Fixed::from_micro(500_000)).micro(), 0);
    assert_eq!((Fixed::from_micro(-5) * Fixed::from_micro(500_000)).micro(), -2);
}

#[test]
fn whole_unit_multiplication_is_exact() {
    let seven_and: Fixed = "7.8125".parse().unwrap();
    assert_eq!((seven_and * Fixed::from_int(2)).micro(), 15_625_000);
    assert_eq!((seven_and * Fixed::one()).micro(), 7_812_500);
    assert_eq!((seven_and * Fixed::zero()).micro(), 0);
}

#[test]
fn named_division_rounds_half_even() {
    assert_eq!(Fixed::from_int(1).div_half_even(Fixed::from_int(3)).micro(), 333_333);
    assert_eq!(Fixed::from_int(2).div_half_even(Fixed::from_int(3)).micro(), 666_667);
    assert_eq!(Fixed::from_int(1).div_half_even(Fixed::from_int(-4)).micro(), -250_000);
}

#[test]
fn display_honours_the_sign_flag() {
    assert_eq!(Fixed::zero().to_string_signed(), "+0");
    assert_eq!(Fixed::from_int(5).to_string_signed(), "+5");
    assert_eq!(Fixed::from_int(-5).to_string_signed(), "-5");
    assert_eq!(Fixed::zero().to_string(), "0");
}

#[test]
fn display_renders_exact_decimals() {
    assert_eq!(Fixed::from_micro(7_812_500).to_string(), "7.8125");
    assert_eq!(Fixed::from_micro(-1_500_000).to_string(), "-1.5");
    assert_eq!(Fixed::from_int(306).to_string(), "306");
    assert_eq!(Fixed::from_micro(1).to_string(), "0.000001");
    assert_eq!(Fixed::zero().to_string(), "0");
}

#[test]
fn parse_rejects_over_precision_instead_of_truncating() {
    assert_eq!("0.1234567".parse::<Fixed>(), Err(ParseFixedError::TooPrecise));
}

#[test]
fn parse_rejects_garbage() {
    for bad in ["", "-", "+", ".", "1.", "1..2", "1,5", "abc", "0x10"] {
        assert!(bad.parse::<Fixed>().is_err(), "accepted: {bad:?}");
    }
}

#[test]
fn display_and_parse_round_trip_over_a_spread_of_values() {
    let mut a: i64 = -1_000_000_000_000;
    while a < 1_000_000_000_000 {
        let f = Fixed::from_micro(a);
        let back: Fixed = f.to_string().parse().unwrap();
        assert_eq!(back, f);
        assert_eq!((f + Fixed::from_micro(12_345)) - Fixed::from_micro(12_345), f);
        a += 7_777_777_777;
    }
}
