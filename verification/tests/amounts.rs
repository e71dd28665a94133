use recipemd::amount::parse_amount;
use recipemd::{Amount, Factor};

fn amount(text: &str) -> Amount {
    let bytes = text.as_bytes();
    parse_amount(bytes, 0, bytes.len())
}

fn unit(u: &str) -> Option<String> {
    Some(u.to_string())
}

#[test]
fn slash_fraction() {
    assert_eq!(amount("1/2 cup"), Amount { factor: Some(Factor::Fraction(1, 2)), unit: unit("cup") });
}

#[test]
fn mixed_fraction() {
    assert_eq!(
        amount("1 1/2 cups"),
        Amount { factor: Some(Factor::Fraction(3, 2)), unit: unit("cups") }
    );
}

#[test]
fn vulgar_fraction() {
    assert_eq!(amount("\u{00bd} cup"), Amount {
        factor: Some(Factor::Fraction(1, 2)),
        unit: unit("cup"),
    });
}

#[test]
fn mixed_vulgar_fraction() {
    assert_eq!(amount("1 \u{00bd}"), Amount { factor: Some(Factor::Fraction(3, 2)), unit: None });
}

#[test]
fn zero_thirds_vulgar_fraction() {
    assert_eq!(amount("\u{2189} cup"), Amount {
        factor: Some(Factor::Fraction(0, 3)),
        unit: unit("cup"),
    });
}

#[test]
fn decimal_with_dot() {
    assert_eq!(
        amount("1.5 l"),
        Amount { factor: Some(Factor::Decimal(b"1.5".to_vec())), unit: unit("l") }
    );
}

#[test]
fn decimal_with_comma() {
    assert_eq!(
        amount("1,5 l"),
        Amount { factor: Some(Factor::Decimal(b"1.5".to_vec())), unit: unit("l") }
    );
}

#[test]
fn plain_integer() {
    assert_eq!(amount("2 eggs"), Amount { factor: Some(Factor::Integer(2)), unit: unit("eggs") });
}

#[test]
fn fallback_keeps_text_as_unit() {
    assert_eq!(amount("pinch"), Amount { factor: None, unit: unit("pinch") });
}

#[test]
fn fallback_on_empty_text() {
    assert_eq!(amount("   "), Amount { factor: None, unit: None });
}

#[test]
fn whole_part_too_large_falls_through() {
    // 70000 does not fit the fraction's sixteen bits, so the fraction
    // branch fails and the integer branch takes over.
    assert_eq!(
        amount("70000 1/2"),
        Amount { factor: Some(Factor::Integer(70000)), unit: unit("1/2") }
    );
}

#[test]
fn combined_fraction_too_large_falls_through() {
    // 1 * 65535 + 1 exceeds sixteen bits.
    assert_eq!(
        amount("1 1/65535"),
        Amount { factor: Some(Factor::Integer(1)), unit: unit("1/65535") }
    );
}

#[test]
fn integer_too_large_falls_back() {
    assert_eq!(amount("4294967296"), Amount { factor: None, unit: unit("4294967296") });
}

#[test]
fn spaced_slash_fraction() {
    assert_eq!(amount("1 / 2"), Amount { factor: Some(Factor::Fraction(1, 2)), unit: None });
}

#[test]
fn decimal_without_integral_digits() {
    assert_eq!(amount(".5 l"), Amount { factor: Some(Factor::Decimal(b".5".to_vec())), unit: unit("l") });
}

#[test]
fn unit_directly_after_fraction() {
    assert_eq!(amount("1/2cup"), Amount { factor: Some(Factor::Fraction(1, 2)), unit: unit("cup") });
}

#[test]
fn newline_inside_unit_rejects_the_numeric_branch() {
    // A unit must fit on one line; otherwise the whole trimmed text is
    // kept as the unit with no factor.
    assert_eq!(amount("1 cup\ncake"), Amount { factor: None, unit: unit("1 cup\ncake") });
}

#[test]
fn newline_between_whole_and_fraction_is_whitespace() {
    assert_eq!(
        amount("1\n1/2 cup"),
        Amount { factor: Some(Factor::Fraction(3, 2)), unit: unit("cup") }
    );
}
