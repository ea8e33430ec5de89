use dynamo_core::codegen::names::split_lines;
use dynamo_core::text::{comes_before, decimal, read_unsigned, same_text, trim};

#[test]
fn numbers_round_trip() {
    for n in [0, 7, 10, 65_536, u64::MAX] {
        assert_eq!(decimal(n), n.to_string());
        assert_eq!(read_unsigned(&decimal(n), u64::MAX), Some(n));
    }
    for text in ["", "+", "-1", " 1", "1 ", "++1", "0x1", "18446744073709551616"] {
        assert_eq!(read_unsigned(text, u64::MAX), text.parse::<u64>().ok(), "{text}");
    }
    assert_eq!(read_unsigned("+007", u64::MAX), "+007".parse::<u64>().ok());
    assert_eq!(read_unsigned("9", 8), None);
}

#[test]
fn white_space_is_what_the_standard_library_says() {
    for code in 0..=char::MAX as u32 {
        if let Some(c) = char::from_u32(code) {
            let text = format!("{c}x{c}");
            assert_eq!(trim(&text), text.trim(), "{code:x}");
        }
    }
    assert_eq!(trim(" \t\u{3000}"), "");
}

#[test]
fn lines_are_what_the_standard_library_says() {
    for text in ["", "a", "a\n", "a\r\nb", "a\rb\r", "\n\n", "a\n\r\n\r", "\r\n"] {
        assert_eq!(
            split_lines(text),
            text.lines().map(str::to_string).collect::<Vec<_>>(),
            "{text:?}"
        );
    }
}

#[test]
fn order_is_what_the_standard_library_says() {
    let texts = ["", "a", "ab", "b", "é", "Z", "_", "\u{10000}", "\u{ffff}"];
    for a in texts {
        for b in texts {
            assert_eq!(comes_before(a, b), a < b, "{a:?} {b:?}");
            assert_eq!(same_text(a, b), a == b);
        }
    }
}
