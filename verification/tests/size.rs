use randfile::size::{digit, letter, parse_normalized, parse_size, scale, scale_mult, SizeError};
use randfile::text::{trim, white_space};

const KIB: u64 = 1024;
const MIB: u64 = 1024 * 1024;
const GIB: u64 = 1024 * 1024 * 1024;
const TIB: u64 = 1024 * 1024 * 1024 * 1024;

/// What a product is worth on this machine: the value, or an overflow.
fn fitting(product: u128) -> Result<usize, SizeError> {
    if product > usize::MAX as u128 {
        Err(SizeError::Overflow)
    } else {
        Ok(product as usize)
    }
}

#[test]
fn plain_number_is_its_value() {
    assert_eq!(parse_size("512"), Ok(512));
    assert_eq!(parse_size("1"), Ok(1));
    assert_eq!(parse_size("4096"), Ok(4096));
}

#[test]
fn zero_is_zero() {
    assert_eq!(parse_size("0"), Ok(0));
}

#[test]
fn empty_input_has_no_number() {
    assert_eq!(parse_size(""), Err(SizeError::InvalidNumber));
    assert_eq!(parse_size("   "), Err(SizeError::InvalidNumber));
}

#[test]
fn each_suffix_scales_by_its_power_of_1024() {
    assert_eq!(parse_size("1k"), Ok(1024));
    assert_eq!(parse_size("4k"), Ok(4096));
    assert_eq!(parse_size("2m"), Ok(2_097_152));
    assert_eq!(parse_size("512k"), Ok(524_288));
    assert_eq!(parse_size("8g"), fitting(8 * GIB as u128));
    assert_eq!(parse_size("3t"), fitting(3 * TIB as u128));
}

#[test]
fn suffix_case_does_not_matter() {
    assert_eq!(parse_size("4K"), Ok(4096));
    assert_eq!(parse_size("2M"), Ok(2_097_152));
    assert_eq!(parse_size("8G"), parse_size("8g"));
    assert_eq!(parse_size("3T"), parse_size("3t"));
}

#[test]
fn digits_times_multiplier_for_many_values() {
    let suffixes: [(&str, u64); 9] = [
        ("", 1),
        ("k", KIB),
        ("K", KIB),
        ("m", MIB),
        ("M", MIB),
        ("g", GIB),
        ("G", GIB),
        ("t", TIB),
        ("T", TIB),
    ];
    let values: [u64; 8] = [0, 1, 7, 10, 99, 1000, 65_535, 1_000_000];
    for (suffix, factor) in suffixes {
        for n in values {
            let text = format!("{}{}", n, suffix);
            assert_eq!(parse_size(&text), fitting(n as u128 * factor as u128));
        }
    }
}

#[test]
fn surrounding_white_space_is_ignored() {
    assert_eq!(parse_size("  7k \n"), Ok(7168));
    assert_eq!(parse_size("\t12"), Ok(12));
    assert_eq!(parse_size("\u{3000}12\u{a0}"), Ok(12));
}

#[test]
fn unknown_suffix_is_reported() {
    assert_eq!(parse_size("5x"), Err(SizeError::InvalidScaleSuffix('x')));
    assert_eq!(parse_size("5X"), Err(SizeError::InvalidScaleSuffix('x')));
    assert_eq!(parse_size("5b"), Err(SizeError::InvalidScaleSuffix('b')));
    assert_eq!(parse_size("x"), Err(SizeError::InvalidScaleSuffix('x')));
}

#[test]
fn letter_before_the_end_is_a_format_error() {
    assert_eq!(parse_size("5k3"), Err(SizeError::InvalidFormat('k')));
    assert_eq!(parse_size("5kk"), Err(SizeError::InvalidFormat('k')));
    assert_eq!(parse_size("5kb"), Err(SizeError::InvalidFormat('k')));
    assert_eq!(parse_size("k5"), Err(SizeError::InvalidFormat('k')));
    assert_eq!(parse_size("1x2"), Err(SizeError::InvalidFormat('x')));
}

#[test]
fn other_characters_are_a_format_error() {
    assert_eq!(parse_size("5 k"), Err(SizeError::InvalidFormat(' ')));
    assert_eq!(parse_size("-5"), Err(SizeError::InvalidFormat('-')));
    assert_eq!(parse_size("+5"), Err(SizeError::InvalidFormat('+')));
    assert_eq!(parse_size("5.5"), Err(SizeError::InvalidFormat('.')));
    assert_eq!(parse_size("1_000"), Err(SizeError::InvalidFormat('_')));
    assert_eq!(parse_size("5\u{e9}"), Err(SizeError::InvalidFormat('\u{e9}')));
}

#[test]
fn suffix_without_digits_has_no_number() {
    assert_eq!(parse_size("k"), Err(SizeError::InvalidNumber));
    assert_eq!(parse_size("M"), Err(SizeError::InvalidNumber));
    assert_eq!(parse_size(" t "), Err(SizeError::InvalidNumber));
}

#[test]
fn digits_beyond_the_word_size_are_no_number() {
    assert_eq!(
        parse_size("99999999999999999999999999"),
        Err(SizeError::InvalidNumber)
    );
    assert_eq!(
        parse_size("99999999999999999999999999k"),
        Err(SizeError::InvalidNumber)
    );
    let next = usize::MAX as u128 + 1;
    assert_eq!(parse_size(&next.to_string()), Err(SizeError::InvalidNumber));
}

#[test]
fn suffix_is_judged_before_the_number() {
    assert_eq!(
        parse_size("99999999999999999999999999x"),
        Err(SizeError::InvalidScaleSuffix('x'))
    );
}

#[test]
fn largest_value_is_accepted() {
    assert_eq!(parse_size(&usize::MAX.to_string()), Ok(usize::MAX));
}

#[test]
fn product_beyond_the_word_size_overflows() {
    let largest = usize::MAX / 1024;
    assert_eq!(parse_size(&format!("{}k", largest)), Ok(largest * 1024));
    assert_eq!(
        parse_size(&format!("{}k", largest + 1)),
        Err(SizeError::Overflow)
    );
    assert_eq!(
        parse_size(&format!("{}t", usize::MAX)),
        Err(SizeError::Overflow)
    );
}

#[test]
fn leading_zeros_are_allowed() {
    assert_eq!(parse_size("0007"), Ok(7));
    assert_eq!(parse_size("000k"), Ok(0));
    assert_eq!(
        parse_size("0000000000000000000000000000000000000012m"),
        Ok(12 * 1024 * 1024)
    );
}

#[test]
fn zero_times_any_factor_is_zero() {
    assert_eq!(parse_size("0k"), Ok(0));
    assert_eq!(parse_size("0t"), Ok(0));
}

#[test]
fn lower_casing_is_that_of_unicode() {
    assert_eq!(parse_size("5\u{212a}"), Ok(5120));
    assert_eq!(
        parse_normalized("5\u{212a}"),
        Err(SizeError::InvalidFormat('\u{212a}'))
    );
}

#[test]
fn normalized_input_is_taken_as_it_is() {
    assert_eq!(parse_normalized("5k"), Ok(5120));
    assert_eq!(parse_normalized("12"), Ok(12));
    assert_eq!(parse_normalized(""), Err(SizeError::InvalidNumber));
    assert_eq!(
        parse_normalized("5K"),
        Err(SizeError::InvalidScaleSuffix('K'))
    );
    assert_eq!(parse_normalized(" 5"), Err(SizeError::InvalidFormat(' ')));
    assert_eq!(parse_normalized("5 "), Err(SizeError::InvalidFormat(' ')));
    assert_eq!(parse_normalized("K5"), Err(SizeError::InvalidFormat('K')));
}

#[test]
fn scale_factors() {
    assert_eq!(scale_mult('k'), Ok(1024));
    assert_eq!(scale_mult('m'), Ok(1_048_576));
    assert_eq!(scale_mult('g'), Ok(1_073_741_824));
    assert_eq!(scale_mult('t'), Ok(1_099_511_627_776));
    assert_eq!(scale_mult('x'), Err(SizeError::InvalidScaleSuffix('x')));
    assert_eq!(scale_mult('K'), Err(SizeError::InvalidScaleSuffix('K')));
    assert_eq!(scale_mult('5'), Err(SizeError::InvalidScaleSuffix('5')));
}

#[test]
fn scaling_checks_the_product() {
    assert_eq!(scale(0, 1024), Ok(0));
    assert_eq!(scale(3, 1024), Ok(3072));
    assert_eq!(scale(usize::MAX, 1), Ok(usize::MAX));
    assert_eq!(scale(usize::MAX, 2), Err(SizeError::Overflow));
    assert_eq!(scale(2, u64::MAX), Err(SizeError::Overflow));
    assert_eq!(scale(0, u64::MAX), Ok(0));
}

#[test]
fn character_classes() {
    for c in ['0', '5', '9'] {
        assert!(digit(c));
        assert!(!letter(c));
    }
    for c in ['a', 'k', 'z', 'A', 'K', 'Z'] {
        assert!(letter(c));
        assert!(!digit(c));
    }
    for c in ['/', ':', '@', '[', '`', '{', ' ', '\u{e9}', '\u{661}'] {
        assert!(!digit(c));
        assert!(!letter(c));
    }
}

#[test]
fn white_space_is_that_of_the_standard_library() {
    let mut code = 0u32;
    while code <= 0x10ffff {
        if let Some(c) = char::from_u32(code) {
            assert_eq!(white_space(c), c.is_whitespace());
        }
        code += 1;
    }
}

#[test]
fn trimming_is_that_of_the_standard_library() {
    let samples = [
        "",
        " ",
        "a",
        " a",
        "a ",
        "  a b  ",
        "\t\n 12k \r\n",
        "\u{2003}x\u{2003}",
        "\u{a0}\u{a0}",
        "a\u{3000}b",
        "\u{200b}a",
    ];
    for s in samples {
        assert_eq!(trim(s), s.trim());
    }
}
