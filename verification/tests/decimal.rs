use desk::decimal::{check_number, parse_atoms, parse_count};

fn chars(s: &str) -> Vec<char> {
    s.chars().collect()
}

#[test]
fn amounts_are_rounded_to_the_atom() {
    assert_eq!(parse_atoms("1.5"), Some(150_000_000));
    assert_eq!(parse_atoms("0.1234567849"), Some(12_345_678));
    assert_eq!(parse_atoms("0.123456785"), Some(12_345_679));
    assert_eq!(parse_atoms("-0.123456785"), Some(-12_345_679));
    assert_eq!(parse_atoms("0.30000000000000004"), Some(30_000_000));
    assert_eq!(parse_atoms("0.000000005"), Some(1));
    assert_eq!(parse_atoms("0.0000000049"), Some(0));
}

#[test]
fn exponents_move_the_point() {
    assert_eq!(parse_atoms("7.3e4"), Some(7_300_000_000_000));
    assert_eq!(parse_atoms("73000E0"), Some(7_300_000_000_000));
    assert_eq!(parse_atoms("15e-1"), Some(150_000_000));
    assert_eq!(parse_atoms(".5e+1"), Some(500_000_000));
    assert_eq!(parse_atoms("1e-400"), Some(0));
    assert_eq!(parse_atoms("1e-99999999999999999999999999999999999999999999"), Some(0));
    assert_eq!(parse_atoms("0e99999999999999999999999999999999999999999999"), Some(0));
    assert_eq!(parse_atoms("1e99999999999999999999999999999999999999999999"), None);
    assert_eq!(parse_atoms("1e11"), None, "more atoms than fit");
    assert_eq!(parse_atoms("92233720368.54775807"), Some(i64::MAX));
    assert_eq!(parse_atoms("-92233720368.54775808"), Some(i64::MIN));
    assert_eq!(parse_atoms("92233720368.54775808"), None);
}

#[test]
fn counts_lose_their_decimals() {
    assert_eq!(parse_count(&chars("7")), Some(7));
    assert_eq!(parse_count(&chars("7.999")), Some(7));
    assert_eq!(parse_count(&chars("-0.5")), Some(0));
    assert_eq!(parse_count(&chars("-1.5")), Some(-1));
    assert_eq!(parse_count(&chars("2.5e1")), Some(25));
    assert_eq!(parse_count(&chars("1e300")), Some(i64::MAX));
    assert_eq!(parse_count(&chars("-1e300")), Some(i64::MIN));
    assert_eq!(parse_count(&chars("9223372036854775807")), Some(i64::MAX));
    assert_eq!(parse_count(&chars("-9223372036854775808")), Some(i64::MIN));
}

#[test]
fn what_is_no_number_is_not_read() {
    for text in ["", ".", "+", "-", "e5", "1e", "1e+", "1.2.3", " 1", "1 ", "1_000", "inf", "nan"] {
        assert!(!check_number(&chars(text)), "{text:?}");
        assert_eq!(parse_atoms(text), None, "{text:?}");
        assert_eq!(parse_count(&chars(text)), None, "{text:?}");
        if text != "inf" && text != "nan" {
            assert!(text.parse::<f64>().is_err(), "{text:?}");
        }
    }
    for text in ["1.", ".5", "+1", "-0", "1E5", "1e-5", "007"] {
        assert!(check_number(&chars(text)), "{text:?}");
        assert!(text.parse::<f64>().is_ok(), "{text:?}");
    }
}
