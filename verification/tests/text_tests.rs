use beetle::text::{parse_decimal_range, Ratio};

fn dec(s: &str) -> Option<Ratio> {
    let cs: Vec<char> = s.chars().collect();
    parse_decimal_range(&cs, 0, cs.len())
}

#[test]
fn decimals_plain_and_signed() {
    assert_eq!(dec("175.5"), Some(Ratio { num: 1755, den: 10 }));
    assert_eq!(dec("-0.75"), Some(Ratio { num: -75, den: 100 }));
    assert_eq!(dec("+.5"), Some(Ratio { num: 5, den: 10 }));
    assert_eq!(dec("3."), Some(Ratio { num: 3, den: 1 }));
    assert_eq!(dec("00000000000000000120"), Some(Ratio { num: 120, den: 1 }));
}

#[test]
fn decimals_with_exponents() {
    assert_eq!(dec("1e2"), Some(Ratio { num: 100, den: 1 }));
    assert_eq!(dec("1.5E-3"), Some(Ratio { num: 15, den: 10000 }));
    assert_eq!(dec("-2.5e+1"), Some(Ratio { num: -25, den: 1 }));
    assert_eq!(dec("1e-30"), Some(Ratio { num: 0, den: 10000000000000000 }));
    assert_eq!(dec("0e999999999999999999999999999999999999"), Some(Ratio { num: 0, den: 1 }));
    assert_eq!(dec("9e18"), Some(Ratio { num: 9000000000000000000, den: 1 }));
    assert_eq!(dec("1e19"), None);
}

#[test]
fn long_fractions_round_to_sixteen_places() {
    assert_eq!(dec("0.12345678901234567"), Some(Ratio { num: 1234567890123457, den: 10000000000000000 }));
    assert_eq!(dec("0.12345678901234564"), Some(Ratio { num: 1234567890123456, den: 10000000000000000 }));
}

#[test]
fn non_numbers_are_rejected() {
    for s in ["", ".", "e5", "1e", "1e+", "1.2.3", "abc", "1x", "inf", "nan", "--1", "1e5.0"] {
        assert_eq!(dec(s), None, "{s}");
    }
}
