use maul::budget::{DecimalAmount, MicroUsd, MicroUsdError};
use rust_decimal::Decimal;

fn amount(d: Decimal) -> DecimalAmount {
    DecimalAmount {
        negative: d.is_sign_negative(),
        mantissa: d.mantissa().unsigned_abs(),
        scale: d.scale(),
    }
}

#[test]
fn converts_decimal_dollars_to_exact_micro_usd() {
    let converted = MicroUsd::try_from_decimal(amount(Decimal::new(150, 2))).unwrap();
    assert_eq!(converted, MicroUsd::from_micro_usd(1_500_000));
    assert_eq!(converted.to_display_string(), "$1.500000");
}

#[test]
fn rejects_negative_money() {
    let error = MicroUsd::try_from_decimal(amount(Decimal::new(-1, 0))).unwrap_err();
    assert_eq!(error, MicroUsdError::Negative);
}

#[test]
fn rejects_sub_micro_precision() {
    let value = amount(Decimal::new(1, 7));
    let error = MicroUsd::try_from_decimal(value).unwrap_err();
    assert_eq!(error, MicroUsdError::TooPrecise(value));
}

#[test]
fn preserves_zero() {
    assert_eq!(
        MicroUsd::try_from_decimal(amount(Decimal::ZERO)).unwrap(),
        MicroUsd::zero()
    );
}

#[test]
fn six_decimal_places_convert_exactly() {
    assert_eq!(
        MicroUsd::try_from_decimal(amount(Decimal::new(1_234_567, 6))).unwrap(),
        MicroUsd::from_micro_usd(1_234_567)
    );
    // Trailing zeros past the sixth place are not extra precision.
    assert_eq!(
        MicroUsd::try_from_decimal(amount(Decimal::new(1_500_000_000, 9))).unwrap(),
        MicroUsd::from_micro_usd(1_500_000)
    );
}

#[test]
fn amounts_past_u64_micro_usd_overflow() {
    let value = amount(Decimal::new(20_000_000_000_000, 0));
    assert_eq!(
        MicroUsd::try_from_decimal(value).unwrap_err(),
        MicroUsdError::Overflow(value)
    );
}

#[test]
fn checked_conversion_reports_rust_decimal_overflow() {
    let huge = amount(Decimal::MAX);
    assert_eq!(MicroUsd::checked_from_decimal(huge), None);
    assert_eq!(
        MicroUsd::checked_from_decimal(amount(Decimal::new(25, 1))),
        Some(Ok(MicroUsd::from_micro_usd(2_500_000)))
    );
    assert_eq!(
        MicroUsd::checked_from_decimal(amount(Decimal::new(-25, 1))),
        Some(Err(MicroUsdError::Negative))
    );
}

#[test]
fn scaled_amounts_convert_by_their_whole_part() {
    let three_usd = amount(Decimal::new(3, 0));
    let scaled = DecimalAmount {
        negative: false,
        mantissa: 3_000_000,
        scale: 0,
    };
    assert_eq!(
        MicroUsd::from_scaled(three_usd, scaled),
        Ok(MicroUsd::from_micro_usd(3_000_000))
    );
    let fractional = DecimalAmount {
        negative: false,
        mantissa: 15,
        scale: 1,
    };
    assert_eq!(
        MicroUsd::from_scaled(three_usd, fractional),
        Err(MicroUsdError::TooPrecise(three_usd))
    );
}
