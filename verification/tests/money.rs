use desk::money::{AccountBalance, AmountAtoms, AmountError, AMOUNT_SCALE};

#[test]
fn parses_and_formats_decimal_amounts() {
    let cases = [
        ("0", 0, "0"),
        ("1", AMOUNT_SCALE, "1"),
        ("1.23", 123_000_000, "1.23"),
        ("0.00000001", 1, "0.00000001"),
        ("-12.34000000", -1_234_000_000, "-12.34"),
        ("+7.5", 750_000_000, "7.5"),
    ];

    for (raw, atoms, rendered) in cases {
        let amount = AmountAtoms::from_decimal_str(raw).unwrap();
        assert_eq!(amount.atoms(), atoms);
        assert_eq!(amount.to_decimal_string(), rendered);
    }
}

#[test]
fn rejects_invalid_decimal_amounts() {
    for raw in ["", ".", "1.000000001", "1.2.3", "abc", "1x", "1.x"] {
        assert!(AmountAtoms::from_decimal_str(raw).is_err(), "raw={raw}");
    }
}

#[test]
fn account_balance_freezes_and_releases_by_atoms() {
    let mut bal = AccountBalance::from_atoms(1_000_000_000, 100_000_000);
    assert!(bal.try_freeze_atoms(200_000_000));
    assert_eq!(bal.frozen_atoms, 300_000_000);
    assert!(!bal.try_freeze_atoms(800_000_001));
    bal.release_atoms(50_000_000);
    assert_eq!(bal.frozen_atoms, 250_000_000);
    bal.apply_atoms_delta(-100_000_000, 200_000_000);
    assert_eq!(bal.balance_atoms, 900_000_000);
    assert_eq!(bal.frozen_atoms, 50_000_000);
}

#[test]
fn each_fault_of_a_decimal_has_its_error() {
    let cases = [
        ("  ", AmountError::Empty),
        ("-", AmountError::MissingDigits),
        (".", AmountError::MissingDigits),
        ("1.2.3", AmountError::MultiplePoints),
        ("1x", AmountError::InvalidWhole),
        ("1.000000001", AmountError::TooManyDecimals),
        ("1.x", AmountError::InvalidFraction),
        ("92233720369", AmountError::Overflow),
    ];
    for (raw, error) in cases {
        assert_eq!(AmountAtoms::from_decimal_str(raw), Err(error), "raw={raw}");
        assert!(!error.message().is_empty());
    }
}

#[test]
fn amounts_read_back_at_the_ends_of_their_range() {
    for atoms in [i64::MIN, i64::MIN + 1, -1, 0, 1, i64::MAX] {
        let amount = AmountAtoms::from_atoms(atoms);
        assert_eq!(AmountAtoms::from_decimal_str(&amount.to_decimal_string()), Ok(amount));
    }
    assert_eq!(AmountAtoms::from_atoms(i64::MAX).to_decimal_string(), "92233720368.54775807");
}

#[test]
fn scaled_products_round_half_up() {
    let p = |a: i64, b: i64| AmountAtoms::from_atoms(a).checked_mul_scaled(AmountAtoms::from_atoms(b));
    assert_eq!(p(150_000_000, 200_000_000), Ok(AmountAtoms::from_atoms(300_000_000)));
    assert_eq!(p(1, 50_000_000), Ok(AmountAtoms::from_atoms(1)));
    assert_eq!(p(1, 49_999_999), Ok(AmountAtoms::from_atoms(0)));
    assert_eq!(p(i64::MAX, i64::MAX), Err(AmountError::Overflow));
}

#[test]
fn sums_are_checked() {
    let a = AmountAtoms::from_atoms(i64::MAX);
    let one = AmountAtoms::from_atoms(1);
    assert_eq!(a.checked_add(one), Err(AmountError::Overflow));
    assert_eq!(a.checked_sub(one), Ok(AmountAtoms::from_atoms(i64::MAX - 1)));
    assert_eq!(one.checked_sub(a), Ok(AmountAtoms::from_atoms(2 - i64::MAX - 1)));
    assert_eq!(AmountAtoms::zero().atoms(), 0);
}
