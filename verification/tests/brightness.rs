use dimmer::brightness::{resolve_target, Brightness};
use dimmer::error::DimmerError;

#[test]
fn from_str_reads_plain_numerals() {
    assert_eq!(Brightness::from_str("0"), Ok(Brightness(0)));
    assert_eq!(Brightness::from_str("12"), Ok(Brightness(12)));
    assert_eq!(Brightness::from_str("007"), Ok(Brightness(7)));
    assert_eq!(Brightness::from_str("+5"), Ok(Brightness(5)));
    assert_eq!(
        Brightness::from_str("18446744073709551615"),
        Ok(Brightness(u64::MAX))
    );
}

#[test]
fn from_str_rejects_what_is_no_numeral() {
    for input in [
        "", "+", "-", "-1", "++1", "1+", " 12", "12 ", "1 2", "1_000", "0x10", "12%", "x", "1.5",
        "\u{ff11}\u{ff12}", "18446744073709551616", "99999999999999999999999",
    ] {
        assert_eq!(
            Brightness::from_str(input),
            Err(DimmerError::InvalidBrightness),
            "input {:?}",
            input
        );
    }
}

#[test]
fn absolute_target_is_taken_as_it_stands() {
    let max = Brightness(255);
    assert_eq!(Brightness::parse_with_percentage("0", max), Ok(Brightness(0)));
    assert_eq!(Brightness::parse_with_percentage("128", max), Ok(Brightness(128)));
    assert_eq!(Brightness::parse_with_percentage("300", max), Ok(Brightness(300)));
    assert_eq!(Brightness::parse_with_percentage("+9", max), Ok(Brightness(9)));
}

#[test]
fn percentage_target_is_a_share_of_the_maximum() {
    assert_eq!(
        Brightness::parse_with_percentage("50%", Brightness(200)),
        Ok(Brightness(100))
    );
    assert_eq!(
        Brightness::parse_with_percentage("0%", Brightness(200)),
        Ok(Brightness(0))
    );
    assert_eq!(
        Brightness::parse_with_percentage("100%", Brightness(255)),
        Ok(Brightness(255))
    );
    assert_eq!(
        Brightness::parse_with_percentage("25%", Brightness(255)),
        Ok(Brightness(63))
    );
    assert_eq!(
        Brightness::parse_with_percentage("+10%", Brightness(1000)),
        Ok(Brightness(100))
    );
    assert_eq!(
        Brightness::parse_with_percentage("100%", Brightness(0)),
        Ok(Brightness(0))
    );
}

#[test]
fn percentage_is_rounded_as_binary64_arithmetic_rounds() {
    // The quotient of 29 by 100 is rounded below 29 hundredths, and the
    // product with 100 stays below 29.
    assert_eq!(
        Brightness::parse_with_percentage("29%", Brightness(100)),
        Ok(Brightness(28))
    );
    assert_eq!(
        Brightness::parse_with_percentage("57%", Brightness(100)),
        Ok(Brightness(56))
    );
    assert_eq!(
        Brightness::parse_with_percentage("58%", Brightness(100)),
        Ok(Brightness(57))
    );
    assert_eq!(
        Brightness::parse_with_percentage("7%", Brightness(100)),
        Ok(Brightness(7))
    );
}

fn native_share(percentage: u64, max: u64) -> u64 {
    ((percentage as f64 / 100.0) * max as f64) as u64
}

#[test]
fn percentage_agrees_with_native_arithmetic_on_small_maxima() {
    for max in 0..=1200u64 {
        for percentage in 0..=100u64 {
            let input = format!("{}%", percentage);
            assert_eq!(
                Brightness::parse_with_percentage(&input, Brightness(max)),
                Ok(Brightness(native_share(percentage, max))),
                "{} of {}",
                input,
                max
            );
        }
    }
}

#[test]
fn percentage_agrees_with_native_arithmetic_near_powers_of_two() {
    for exponent in 1..64u32 {
        for offset in [-3i64, -2, -1, 0, 1, 2, 3, 5, 7] {
            let max = (1u64 << exponent).wrapping_add(offset as u64);
            for percentage in 0..=100u64 {
                let input = format!("{}%", percentage);
                assert_eq!(
                    Brightness::parse_with_percentage(&input, Brightness(max)),
                    Ok(Brightness(native_share(percentage, max))),
                    "{} of {}",
                    input,
                    max
                );
            }
        }
    }
}

#[test]
fn percentage_agrees_with_native_arithmetic_on_scattered_maxima() {
    let mut state: u64 = 0x9e37_79b9_7f4a_7c15;
    for round in 0..20_000u64 {
        state ^= state << 13;
        state ^= state >> 7;
        state ^= state << 17;
        let max = state >> (round % 64);
        let percentage = state % 101;
        let input = format!("{}%", percentage);
        assert_eq!(
            Brightness::parse_with_percentage(&input, Brightness(max)),
            Ok(Brightness(native_share(percentage, max))),
            "{} of {}",
            input,
            max
        );
    }
}

#[test]
fn whole_of_the_largest_maximum_saturates() {
    assert_eq!(
        Brightness::parse_with_percentage("100%", Brightness(u64::MAX)),
        Ok(Brightness(u64::MAX))
    );
    assert_eq!(
        Brightness::parse_with_percentage("100%", Brightness(u64::MAX - 1)),
        Ok(Brightness(u64::MAX))
    );
}

#[test]
fn whole_of_a_maximum_that_rounds_upward_exceeds_it() {
    let max = (1u64 << 53) + 3;
    assert_eq!(
        Brightness::parse_with_percentage("100%", Brightness(max)),
        Ok(Brightness((1u64 << 53) + 4))
    );
    let rounded_down = (1u64 << 53) + 1;
    assert_eq!(
        Brightness::parse_with_percentage("100%", Brightness(rounded_down)),
        Ok(Brightness(1u64 << 53))
    );
}

#[test]
fn percentages_stay_within_the_maximum_and_in_order() {
    for max in [0u64, 1, 7, 100, 255, 937, 4095, 65_535, 1 << 31, 1 << 53] {
        let mut last = 0u64;
        for percentage in 0..=100u64 {
            let input = format!("{}%", percentage);
            let level = Brightness::parse_with_percentage(&input, Brightness(max))
                .expect("a percentage up to 100 is accepted");
            assert!(level.0 <= max, "{} of {} gave {}", input, max, level.0);
            assert!(level.0 >= last, "{} of {} fell to {}", input, max, level.0);
            last = level.0;
        }
        assert_eq!(last, max);
    }
}

#[test]
fn percentage_above_one_hundred_is_rejected() {
    let max = Brightness(255);
    for input in ["101%", "150%", "1000%", "18446744073709551615%"] {
        assert_eq!(
            Brightness::parse_with_percentage(input, max),
            Err(DimmerError::InvalidPercentage),
            "input {:?}",
            input
        );
    }
}

#[test]
fn target_that_is_no_numeral_is_rejected() {
    let max = Brightness(255);
    for input in [
        "", "abc", "%", "+%", "12%%", "1 0%", "10 %", " 10%", "-5", "-5%", "ten%", "5.5%",
        "18446744073709551616", "18446744073709551616%",
    ] {
        assert_eq!(
            Brightness::parse_with_percentage(input, max),
            Err(DimmerError::InvalidBrightness),
            "input {:?}",
            input
        );
    }
}

#[test]
fn file_contents_are_trimmed_before_they_are_read() {
    assert_eq!(Brightness::from_file_contents("42"), Ok(Brightness(42)));
    assert_eq!(Brightness::from_file_contents("42\n"), Ok(Brightness(42)));
    assert_eq!(Brightness::from_file_contents("  7 \t\r\n"), Ok(Brightness(7)));
    assert_eq!(
        Brightness::from_file_contents("\u{2003}5\u{a0}\u{3000}"),
        Ok(Brightness(5))
    );
    assert_eq!(Brightness::from_file_contents("\u{b}\u{c}+3\u{85}"), Ok(Brightness(3)));
}

#[test]
fn malformed_file_contents_are_a_parse_error() {
    for contents in ["", "\n", "   ", "4 2", "42%", "bright", "-1", "1\u{200b}", "\u{feff}1"] {
        assert_eq!(
            Brightness::from_file_contents(contents),
            Err(DimmerError::ParseError),
            "contents {:?}",
            contents
        );
    }
}

#[test]
fn file_contents_are_read_as_std_reads_them() {
    let pieces = [
        "", " ", "\n", "\t", "\u{a0}", "\u{1680}", "\u{2000}", "\u{200a}", "\u{200b}", "\u{2028}",
        "\u{2029}", "\u{202f}", "\u{205f}", "\u{3000}", "\u{180e}", "\u{85}", "\u{1c}", "\u{1f}",
    ];
    for before in pieces {
        for number in ["0", "17", "+4", "1 1", "", "x"] {
            for after in pieces {
                let contents = format!("{}{}{}", before, number, after);
                let expected = contents
                    .trim()
                    .parse::<u64>()
                    .map(Brightness)
                    .map_err(|_| DimmerError::ParseError);
                assert_eq!(
                    Brightness::from_file_contents(&contents),
                    expected,
                    "contents {:?}",
                    contents
                );
            }
        }
    }
}

#[test]
fn to_text_writes_digits_only() {
    assert_eq!(Brightness(0).to_text(), "0");
    assert_eq!(Brightness(9).to_text(), "9");
    assert_eq!(Brightness(10).to_text(), "10");
    assert_eq!(Brightness(1_234_567_890).to_text(), "1234567890");
    assert_eq!(Brightness(u64::MAX).to_text(), "18446744073709551615");
}

#[test]
fn to_text_agrees_with_std_formatting() {
    let mut value: u64 = 1;
    for _ in 0..200 {
        assert_eq!(Brightness(value).to_text(), value.to_string());
        assert_eq!(Brightness(value - 1).to_text(), (value - 1).to_string());
        value = value.wrapping_mul(6_364_136_223_846_793_005).wrapping_add(1_442_695_040_888_963_407) | 1;
    }
}

#[test]
fn saved_level_is_restored_exactly() {
    for value in [0u64, 1, 9, 10, 99, 100, 255, 4095, 1 << 53, u64::MAX - 1, u64::MAX] {
        let saved = Brightness(value).to_text();
        assert_eq!(Brightness::from_file_contents(&saved), Ok(Brightness(value)));
        assert_eq!(Brightness::from_str(&saved), Ok(Brightness(value)));
        assert_eq!(saved.as_bytes(), value.to_string().as_bytes());
    }
}

#[test]
fn clamp_holds_a_level_to_the_maximum() {
    let max = Brightness(255);
    assert_eq!(Brightness(300).clamp_to(max), Brightness(255));
    assert_eq!(Brightness(255).clamp_to(max), Brightness(255));
    assert_eq!(Brightness(254).clamp_to(max), Brightness(254));
    assert_eq!(Brightness(0).clamp_to(max), Brightness(0));
    assert_eq!(Brightness(u64::MAX).clamp_to(Brightness(0)), Brightness(0));
}

#[test]
fn levels_are_ordered_as_their_numbers() {
    assert!(Brightness(1) < Brightness(2));
    assert!(Brightness(2) > Brightness(1));
    assert!(Brightness(2) <= Brightness(2));
    assert!(Brightness(2) >= Brightness(2));
    assert!(!(Brightness(3) < Brightness(3)));
    assert_eq!(
        Brightness(5).partial_cmp(&Brightness(9)),
        Some(std::cmp::Ordering::Less)
    );
    assert_eq!(
        Brightness(9).partial_cmp(&Brightness(5)),
        Some(std::cmp::Ordering::Greater)
    );
    assert_eq!(
        Brightness(5).partial_cmp(&Brightness(5)),
        Some(std::cmp::Ordering::Equal)
    );
}

#[test]
fn requested_target_above_the_maximum_is_clamped() {
    let max = Brightness(255);
    assert_eq!(resolve_target(None, "300", max), Ok(Brightness(255)));
    assert_eq!(resolve_target(None, "255", max), Ok(Brightness(255)));
    assert_eq!(resolve_target(None, "12", max), Ok(Brightness(12)));
    assert_eq!(resolve_target(None, "50%", max), Ok(Brightness(127)));
    assert_eq!(
        resolve_target(None, "100%", Brightness((1u64 << 53) + 3)),
        Ok(Brightness((1u64 << 53) + 3))
    );
}

#[test]
fn restored_target_takes_the_place_of_the_request() {
    let max = Brightness(255);
    assert_eq!(resolve_target(Some("80\n"), "10", max), Ok(Brightness(80)));
    assert_eq!(resolve_target(Some("80"), "not a number", max), Ok(Brightness(80)));
    assert_eq!(resolve_target(Some("999"), "10", max), Ok(Brightness(255)));
    assert_eq!(
        resolve_target(Some("garbage"), "10", max),
        Err(DimmerError::ParseError)
    );
    assert_eq!(resolve_target(Some("50%"), "10", max), Err(DimmerError::ParseError));
}

#[test]
fn rejected_request_is_reported_with_its_kind() {
    let max = Brightness(255);
    assert_eq!(
        resolve_target(None, "101%", max),
        Err(DimmerError::InvalidPercentage)
    );
    assert_eq!(
        resolve_target(None, "bright", max),
        Err(DimmerError::InvalidBrightness)
    );
}
