use websocket_agg_orders::text::{chars_of, same_text};
use websocket_agg_orders::util::{
    digit_of, format_price_cents, parse_price_cents, parse_quantity_smallest_unit,
    parse_unsigned, power_of_ten,
};

fn unsigned(text: &str) -> Option<u64> {
    parse_unsigned(&text.chars().collect())
}

#[test]
fn smallest_quantity_and_truncated_price() {
    assert_eq!(parse_quantity_smallest_unit("0.00000001", 8), Some(1));
    assert_eq!(parse_price_cents("1234.56789"), Some(123456));
}

#[test]
fn price_is_whole_part_times_hundred_plus_two_digits() {
    assert_eq!(parse_price_cents("30123.45"), Some(3_012_345));
    assert_eq!(parse_price_cents("30123.4"), Some(3_012_340));
    assert_eq!(parse_price_cents("30123"), Some(3_012_300));
    assert_eq!(parse_price_cents("30123."), Some(3_012_300));
    assert_eq!(parse_price_cents("0.07"), Some(7));
    assert_eq!(parse_price_cents("0.7"), Some(70));
    assert_eq!(parse_price_cents("007.50"), Some(750));
    assert_eq!(parse_price_cents("0"), Some(0));
}

#[test]
fn price_fraction_is_cut_off_and_not_rounded() {
    assert_eq!(parse_price_cents("1.999"), Some(199));
    assert_eq!(parse_price_cents("1.995"), Some(199));
    assert_eq!(parse_price_cents("0.009"), Some(0));
    assert_eq!(parse_quantity_smallest_unit("0.123456789", 8), Some(12_345_678));
    assert_eq!(parse_quantity_smallest_unit("0.000000019", 8), Some(1));
}

#[test]
fn what_is_cut_off_is_not_looked_at() {
    assert_eq!(parse_price_cents("1.23x"), Some(123));
    assert_eq!(parse_price_cents("1.2x"), None);
    assert_eq!(parse_quantity_smallest_unit("2.5abc", 1), Some(25));
}

#[test]
fn texts_that_are_no_decimal_number_are_rejected() {
    assert_eq!(parse_price_cents(""), None);
    assert_eq!(parse_price_cents("."), None);
    assert_eq!(parse_price_cents(".5"), None);
    assert_eq!(parse_price_cents("1.2.3"), None);
    assert_eq!(parse_price_cents("1..2"), None);
    assert_eq!(parse_price_cents("1.234.5"), None);
    assert_eq!(parse_price_cents("abc"), None);
    assert_eq!(parse_price_cents("-1.00"), None);
    assert_eq!(parse_price_cents("1,5"), None);
    assert_eq!(parse_price_cents(" 1.5"), None);
    assert_eq!(parse_price_cents("1.5 "), None);
    assert_eq!(parse_price_cents("1e3"), None);
    assert_eq!(parse_price_cents("1.\u{e9}"), None);
    assert_eq!(parse_price_cents("1.5\u{e9}"), None);
    assert_eq!(parse_price_cents("\u{661}.50"), None);
    assert_eq!(parse_quantity_smallest_unit("0.5.", 8), None);
    assert_eq!(parse_quantity_smallest_unit("x", 8), None);
}

#[test]
fn a_leading_plus_is_read_as_by_the_standard_library() {
    assert_eq!(parse_price_cents("+12.5"), Some(1250));
    assert_eq!(parse_price_cents("+"), None);
    assert_eq!(parse_price_cents("+.5"), None);
    assert_eq!(parse_price_cents("++1"), None);
}

#[test]
fn price_overflow_gives_none() {
    assert_eq!(
        parse_price_cents("184467440737095516.15"),
        Some(u64::MAX)
    );
    assert_eq!(parse_price_cents("184467440737095516.16"), None);
    assert_eq!(parse_price_cents("184467440737095517"), None);
    assert_eq!(parse_price_cents("18446744073709551615"), None);
    assert_eq!(parse_price_cents("18446744073709551616"), None);
    assert_eq!(
        parse_price_cents("99999999999999999999999999.00"),
        None
    );
}

#[test]
fn quantity_scale_follows_the_decimals() {
    assert_eq!(parse_quantity_smallest_unit("1.5", 0), None);
    assert_eq!(parse_quantity_smallest_unit("15", 0), Some(15));
    assert_eq!(parse_quantity_smallest_unit("15.", 0), None);
    assert_eq!(parse_quantity_smallest_unit("1.5", 1), Some(15));
    assert_eq!(parse_quantity_smallest_unit("1.5", 8), Some(150_000_000));
    assert_eq!(parse_quantity_smallest_unit("0", 8), Some(0));
    assert_eq!(parse_quantity_smallest_unit("21000000", 8), Some(2_100_000_000_000_000));
    assert_eq!(
        parse_quantity_smallest_unit("1.000000000000000001", 18),
        Some(1_000_000_000_000_000_001)
    );
    assert_eq!(
        parse_quantity_smallest_unit("18.446744073709551615", 18),
        Some(u64::MAX)
    );
    assert_eq!(parse_quantity_smallest_unit("18.446744073709551616", 18), None);
    assert_eq!(parse_quantity_smallest_unit("19", 18), None);
    assert_eq!(
        parse_quantity_smallest_unit("1.8446744073709551615", 19),
        Some(u64::MAX)
    );
    assert_eq!(parse_quantity_smallest_unit("0.1", 19), Some(1_000_000_000_000_000_000));
    assert_eq!(parse_quantity_smallest_unit("0", 20), None);
    assert_eq!(parse_quantity_smallest_unit("0.1", u32::MAX), None);
}

#[test]
fn exact_for_every_text_with_at_most_that_many_decimals() {
    for whole in [0u64, 1, 9, 10, 99, 12345, 184_467_440_736] {
        for decimals in 0u32..9 {
            for digits in 0..=decimals {
                let fraction: u64 = 10u64.pow(digits) - 1;
                let text = if digits == 0 {
                    format!("{}", whole)
                } else {
                    format!("{}.{:0width$}", whole, fraction, width = digits as usize)
                };
                let expected =
                    whole * 10u64.pow(decimals) + fraction * 10u64.pow(decimals - digits);
                assert_eq!(
                    parse_quantity_smallest_unit(&text, decimals),
                    Some(expected)
                );
            }
        }
    }
}

#[test]
fn a_price_is_written_with_two_decimal_places() {
    assert_eq!(format_price_cents(0), "0.00");
    assert_eq!(format_price_cents(7), "0.07");
    assert_eq!(format_price_cents(70), "0.70");
    assert_eq!(format_price_cents(100), "1.00");
    assert_eq!(format_price_cents(3_012_345), "30123.45");
    assert_eq!(format_price_cents(1_000_000), "10000.00");
    assert_eq!(format_price_cents(u64::MAX), "184467440737095516.15");
    for cents in [0u64, 1, 9, 10, 99, 100, 101, 123_456, 3_012_345, u64::MAX] {
        assert_eq!(
            format_price_cents(cents),
            format!("{}.{:02}", cents / 100, cents % 100)
        );
    }
}

#[test]
fn a_price_written_out_is_read_back() {
    for cents in [0u64, 1, 9, 10, 99, 100, 101, 123_456, 3_012_345, u64::MAX] {
        assert_eq!(parse_price_cents(&format_price_cents(cents)), Some(cents));
    }
    for text in ["0.00", "7.50", "30123.45", "184467440737095516.15"] {
        assert_eq!(format_price_cents(parse_price_cents(text).unwrap()), text);
    }
    assert_eq!(format_price_cents(parse_price_cents("7.5").unwrap()), "7.50");
    assert_eq!(format_price_cents(parse_price_cents("7.").unwrap()), "7.00");
    assert_eq!(format_price_cents(parse_price_cents("7").unwrap()), "7.00");
    assert_eq!(format_price_cents(parse_price_cents("0.5").unwrap()), "0.50");
}

#[test]
fn unsigned_numbers_are_read_as_by_the_standard_library() {
    let texts = [
        "",
        "+",
        "-",
        "0",
        "+0",
        "-0",
        "007",
        "42",
        "+42",
        "-42",
        "++42",
        "+-42",
        "4 2",
        " 42",
        "42 ",
        "4_2",
        "0x10",
        "1e3",
        "1.0",
        "18446744073709551615",
        "18446744073709551616",
        "+18446744073709551615",
        "99999999999999999999",
        "000000000000000000000000000001",
        "184467440737095516150",
        "12a",
        "a12",
        "\u{ff11}\u{ff12}",
        "\u{661}",
        "1\u{0}",
    ];
    for text in texts {
        assert_eq!(unsigned(text), text.parse::<u64>().ok());
    }
    assert_eq!(unsigned("18446744073709551615"), Some(u64::MAX));
    assert_eq!(unsigned("+42"), Some(42));
    assert_eq!(unsigned("18446744073709551616"), None);
}

#[test]
fn digits_and_powers() {
    assert_eq!(digit_of('0'), Some(0));
    assert_eq!(digit_of('9'), Some(9));
    assert_eq!(digit_of('/'), None);
    assert_eq!(digit_of(':'), None);
    assert_eq!(digit_of('a'), None);
    assert_eq!(digit_of('\u{661}'), None);
    assert_eq!(power_of_ten(0), Some(1));
    assert_eq!(power_of_ten(2), Some(100));
    assert_eq!(power_of_ten(8), Some(100_000_000));
    assert_eq!(power_of_ten(19), Some(10_000_000_000_000_000_000));
    assert_eq!(power_of_ten(20), None);
    assert_eq!(power_of_ten(u32::MAX), None);
}

#[test]
fn texts_are_taken_character_by_character() {
    assert_eq!(chars_of(""), Vec::<char>::new());
    assert_eq!(chars_of("a\u{e9}\u{1f600}z"), vec!['a', '\u{e9}', '\u{1f600}', 'z']);
    assert!(same_text("depthUpdate", "depthUpdate"));
    assert!(same_text("", ""));
    assert!(!same_text("data", "date"));
    assert!(!same_text("data", "dat"));
    assert!(!same_text("", "x"));
}

/// The codec written with the text functions of the standard library; none
/// where a cut would fall inside a character.
fn by_the_standard_library(s: &str, decimals: u32) -> Option<u64> {
    let mut parts = s.split('.');
    let int_part = parts.next()?;
    let frac_part = parts.next();
    if parts.next().is_some() {
        return None;
    }
    let int_val: u64 = int_part.parse().ok()?;
    let scale = 10u64.checked_pow(decimals)?;
    let frac_val = if let Some(frac) = frac_part {
        let mut frac = frac.to_string();
        if frac.len() > decimals as usize {
            if !frac.is_char_boundary(decimals as usize) {
                return None;
            }
            frac.truncate(decimals as usize);
        } else {
            while frac.len() < decimals as usize {
                frac.push('0');
            }
        }
        frac.parse::<u64>().ok()?
    } else {
        0
    };
    int_val.checked_mul(scale)?.checked_add(frac_val)
}

#[test]
fn the_codec_reads_as_the_standard_library_would() {
    let alphabet = ['0', '1', '5', '9', '.', '.', '+', '-', 'a', ' ', '\u{e9}', '\u{661}'];
    let mut state: u64 = 0x2545_F491_4F6C_DD1D;
    let mut seen_some = 0;
    for _ in 0..20_000 {
        let mut text = String::new();
        state ^= state << 13;
        state ^= state >> 7;
        state ^= state << 17;
        let length = (state % 9) as usize;
        for _ in 0..length {
            state ^= state << 13;
            state ^= state >> 7;
            state ^= state << 17;
            let pick = if state % 4 == 0 {
                (state >> 8) as usize % alphabet.len()
            } else {
                (state >> 8) as usize % 5
            };
            text.push(alphabet[pick]);
        }
        for decimals in [0u32, 1, 2, 3, 8] {
            let expected = by_the_standard_library(&text, decimals);
            assert_eq!(parse_quantity_smallest_unit(&text, decimals), expected);
            if expected.is_some() {
                seen_some += 1;
            }
        }
        assert_eq!(parse_price_cents(&text), by_the_standard_library(&text, 2));
    }
    assert!(seen_some > 1000);
}

#[test]
fn long_numbers_are_read_as_the_standard_library_would() {
    for whole in ["18446744073709551615", "1844674407370955161", "184467440737095516", "99999"] {
        for fraction in ["", "0", "15", "16", "999999999999999999999", "1615", "00000000000000000001"] {
            let text = format!("{}.{}", whole, fraction);
            for decimals in [0u32, 1, 2, 4, 8, 18, 19, 20, 21] {
                assert_eq!(
                    parse_quantity_smallest_unit(&text, decimals),
                    by_the_standard_library(&text, decimals)
                );
            }
        }
    }
}
