use bagflow::number::{decimal_text, parse_usize, setting, signed_text, IntError};

#[test]
fn decimal_notation_has_no_leading_zeros() {
    assert_eq!(decimal_text(0), "0");
    assert_eq!(decimal_text(9), "9");
    assert_eq!(decimal_text(10), "10");
    assert_eq!(decimal_text(8388608), "8388608");
    assert_eq!(decimal_text(u64::MAX), "18446744073709551615");
}

#[test]
fn decimal_notation_reads_back() {
    for n in [0usize, 7, 64, 1000, 8388608, usize::MAX] {
        assert_eq!(parse_usize(&decimal_text(n as u64)), Ok(n));
        assert_eq!(decimal_text(n as u64), n.to_string());
    }
}

#[test]
fn numbers_are_read_as_std_reads_them() {
    let cases = [
        "", "+", "-", "+5", "++5", "-5", "007", "1x", "x1", " 1", "1 ", "１",
        "18446744073709551615", "18446744073709551616", "99999999999999999999x",
        "x99999999999999999999", "+18446744073709551615",
    ];
    for text in cases {
        assert_eq!(parse_usize(text).ok(), text.parse::<usize>().ok(), "{text}");
        if let (Err(ours), Err(std)) = (parse_usize(text), text.parse::<usize>()) {
            assert_eq!(ours.message(), std.to_string(), "{text}");
        }
    }
}

#[test]
fn each_integer_error_occurs() {
    assert_eq!(parse_usize(""), Err(IntError::Empty));
    assert_eq!(parse_usize("12a"), Err(IntError::InvalidDigit));
    assert_eq!(parse_usize("18446744073709551616"), Err(IntError::PosOverflow));
}

#[test]
fn settings_fall_back() {
    assert_eq!(setting(None, 64), 64);
    assert_eq!(setting(Some("12"), 64), 12);
    assert_eq!(setting(Some("twelve"), 64), 64);
    assert_eq!(setting(Some(""), 64), 64);
    assert_eq!(setting(Some("0"), 64), 0);
}

#[test]
fn negative_numbers_have_a_sign() {
    assert_eq!(signed_text(0), "0");
    assert_eq!(signed_text(7), "7");
    assert_eq!(signed_text(-1), "-1");
    assert_eq!(signed_text(i32::MIN), "-2147483648");
    assert_eq!(signed_text(i32::MAX), "2147483647");
}
