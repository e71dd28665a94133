use recipemd::amount::decode_unicode_fraction;

#[test]
fn decodes_common_vulgar_fractions() {
    assert_eq!(decode_unicode_fraction("\u{00bc}"), (1, 4));
    assert_eq!(decode_unicode_fraction("\u{00bd}"), (1, 2));
    assert_eq!(decode_unicode_fraction("\u{00be}"), (3, 4));
}

#[test]
fn decodes_sevenths_ninths_and_tenths() {
    assert_eq!(decode_unicode_fraction("\u{2150}"), (1, 7));
    assert_eq!(decode_unicode_fraction("\u{2151}"), (1, 9));
    assert_eq!(decode_unicode_fraction("\u{2152}"), (1, 10));
}

#[test]
fn decodes_eighths() {
    assert_eq!(decode_unicode_fraction("\u{215b}"), (1, 8));
    assert_eq!(decode_unicode_fraction("\u{215c}"), (3, 8));
    assert_eq!(decode_unicode_fraction("\u{215d}"), (5, 8));
    assert_eq!(decode_unicode_fraction("\u{215e}"), (7, 8));
}

#[test]
fn decodes_zero_thirds() {
    assert_eq!(decode_unicode_fraction("\u{2189}"), (0, 3));
}
