use std::collections::VecDeque;
use std::str::FromStr;

use wm_core::{Delta, Fraction, LengthUnit, LengthValue, VecDequeExt, WmError};

#[test]
fn parses_pixels() {
    let v = LengthValue::parse("100px").unwrap();
    assert_eq!(v, LengthValue { amount_hundredths: 10000, unit: LengthUnit::Pixel });
}

#[test]
fn parses_percentage_as_fraction_of_one() {
    let v = LengthValue::parse("50%").unwrap();
    assert_eq!(v, LengthValue { amount_hundredths: 50, unit: LengthUnit::Percentage });
}

#[test]
fn parses_missing_unit_as_pixels() {
    let v = LengthValue::parse("10").unwrap();
    assert_eq!(v, LengthValue { amount_hundredths: 1000, unit: LengthUnit::Pixel });
}

#[test]
fn parses_signed_numbers() {
    assert_eq!(LengthValue::parse("-20px").unwrap().amount_hundredths, -2000);
    assert_eq!(LengthValue::parse("+7%").unwrap().amount_hundredths, 7);
}

#[test]
fn rejects_malformed_lengths() {
    assert_eq!(LengthValue::parse("abc"), Err(WmError::Parse("abc".to_string())));
    assert_eq!(LengthValue::parse("10em"), Err(WmError::Parse("10em".to_string())));
    assert_eq!(LengthValue::parse(""), Err(WmError::Parse(String::new())));
    assert_eq!(LengthValue::parse("px"), Err(WmError::Parse("px".to_string())));
    assert_eq!(LengthValue::parse("10px "), Err(WmError::Parse("10px ".to_string())));
    assert!(LengthValue::parse("-").is_err());
}

#[test]
fn rejects_magnitude_out_of_range() {
    assert!(LengthValue::parse("2147483647px").is_ok());
    assert!(LengthValue::parse("2147483648px").is_err());
    assert!(LengthValue::parse("99999999999999999999999").is_err());
}

#[test]
fn pixel_string_round_trips_through_to_px() {
    for n in [0, 1, 250, -40, 2147483647] {
        let v = LengthValue::parse(&format!("{}px", n)).unwrap();
        assert_eq!(v.to_px(1000, None), n);
        assert_eq!(v.to_px(7, None), n);
    }
}

#[test]
fn to_px_of_percentage_multiplies_total() {
    let v = LengthValue::parse("50%").unwrap();
    assert_eq!(v.to_px(1920, None), 960);
    let third = LengthValue::parse("33%").unwrap();
    assert_eq!(third.to_px(10, None), 3);
    let neg = LengthValue::parse("-33%").unwrap();
    assert_eq!(neg.to_px(10, None), -3);
}

#[test]
fn to_px_of_pixels_applies_scale() {
    let v = LengthValue::parse("10px").unwrap();
    assert_eq!(v.to_px(0, Some(150)), 15);
    assert_eq!(v.to_px(0, Some(125)), 12);
    assert_eq!(LengthValue::parse("-10px").unwrap().to_px(0, Some(125)), -12);
}

#[test]
fn to_px_clamps_to_i32() {
    let v = LengthValue::parse("2147483647px").unwrap();
    assert_eq!(v.to_px(0, Some(200)), i32::MAX);
}

#[test]
fn to_percentage_of_pixels_divides_by_total() {
    let v = LengthValue::parse("50px").unwrap();
    assert_eq!(v.to_percentage(200), Fraction { numer: 5000, denom: 20000 });
    let p = LengthValue::parse("25%").unwrap();
    assert_eq!(p.to_percentage(200), Fraction { numer: 25, denom: 100 });
}

#[test]
fn from_px_is_a_pixel_length() {
    assert_eq!(LengthValue::from_px(12), LengthValue { amount_hundredths: 1200, unit: LengthUnit::Pixel });
}

#[test]
fn delta_signs() {
    let plus = Delta::<LengthValue>::parse("+10").unwrap();
    assert!(!plus.is_negative);
    assert_eq!(plus.inner, LengthValue { amount_hundredths: 1000, unit: LengthUnit::Pixel });
    let minus = Delta::<LengthValue>::parse("-10").unwrap();
    assert!(minus.is_negative);
    assert_eq!(minus.inner, LengthValue { amount_hundredths: 1000, unit: LengthUnit::Pixel });
    let bare = Delta::<LengthValue>::parse("10").unwrap();
    assert!(!bare.is_negative);
    assert_eq!(bare.inner, LengthValue { amount_hundredths: 1000, unit: LengthUnit::Pixel });
}

#[test]
fn delta_rejects_empty_values() {
    assert!(matches!(Delta::<LengthValue>::parse(""), Err(WmError::Parse(_))));
    assert!(matches!(Delta::<LengthValue>::parse("+"), Err(WmError::Parse(_))));
    assert!(matches!(Delta::<LengthValue>::parse("-"), Err(WmError::Parse(_))));
    assert!(matches!(Delta::<LengthValue>::parse("+x"), Err(WmError::Parse(_))));
}

#[test]
fn delta_ignores_surrounding_whitespace() {
    let d = Delta::<LengthValue>::parse("  -5%  ").unwrap();
    assert!(d.is_negative);
    assert_eq!(d.inner, LengthValue { amount_hundredths: 5, unit: LengthUnit::Percentage });
    assert!(Delta::<LengthValue>::parse_trimmed(" -5%").is_err());
}

#[test]
fn shift_to_index_clamps_to_end() {
    let mut d: VecDeque<usize> = VecDeque::from(vec![1, 2, 3, 4]);
    d.shift_to_index(10, 2);
    assert_eq!(d, VecDeque::from(vec![1, 3, 4, 2]));
}

#[test]
fn shift_to_index_zero_puts_first() {
    let mut d: VecDeque<usize> = VecDeque::from(vec![1, 2, 3, 4]);
    d.shift_to_index(0, 3);
    assert_eq!(d, VecDeque::from(vec![3, 1, 2, 4]));
}

#[test]
fn shift_to_index_ignores_absent_item() {
    let mut d: VecDeque<usize> = VecDeque::from(vec![1, 2, 3]);
    d.shift_to_index(1, 9);
    assert_eq!(d, VecDeque::from(vec![1, 2, 3]));
    let mut v: Vec<usize> = vec![5, 6, 7];
    v.shift_to_index(1, 7);
    assert_eq!(v, vec![5, 7, 6]);
}

#[test]
fn from_str_matches_parse() {
    let check = LengthValue { amount_hundredths: 10000, unit: LengthUnit::Pixel };
    assert_eq!(LengthValue::from_str("100px").unwrap(), check);
    assert_eq!("100px".parse::<LengthValue>().unwrap(), check);
    let d = Delta::<LengthValue>::from_str("-3%").unwrap();
    assert!(d.is_negative);
    assert_eq!(d.inner.amount_hundredths, 3);
}

#[test]
fn delta_error_echoes_input() {
    assert_eq!(Delta::<LengthValue>::parse("+"), Err(WmError::Parse("+".to_string())));
    assert_eq!(Delta::<LengthValue>::parse("-abc"), Err(WmError::Parse("abc".to_string())));
}
