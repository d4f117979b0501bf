use phaneros::units::{decimal_text, push_fixed};

fn fixed(n: u128, d: u128, places: u32) -> String {
    let mut s = String::new();
    push_fixed(&mut s, n, d, places);
    s
}

#[test]
fn whole_numbers() {
    assert_eq!(decimal_text(0), "0");
    assert_eq!(decimal_text(1234567890), "1234567890");
    assert_eq!(decimal_text(u64::MAX as u128), u64::MAX.to_string());
}

#[test]
fn fixed_decimals_round_ties_to_even() {
    assert_eq!(fixed(1, 8, 2), "0.12");
    assert_eq!(fixed(3, 8, 2), "0.38");
    assert_eq!(fixed(5, 2, 0), "2");
    assert_eq!(fixed(7, 2, 0), "4");
    assert_eq!(fixed(1, 3, 2), "0.33");
    assert_eq!(fixed(2, 3, 1), "0.7");
    assert_eq!(fixed(10, 1, 2), "10.00");
}

#[test]
fn fixed_decimals_match_float_formatting_for_powers_of_two() {
    for n in 0..5000u128 {
        for shift in [1u32, 3, 10, 20] {
            let d = 1u128 << shift;
            assert_eq!(fixed(n, d, 2), format!("{:.2}", n as f64 / d as f64), "{} / {}", n, d);
            assert_eq!(fixed(n, d, 1), format!("{:.1}", n as f64 / d as f64), "{} / {}", n, d);
            assert_eq!(fixed(n, d, 0), format!("{:.0}", n as f64 / d as f64), "{} / {}", n, d);
        }
    }
}
