use codex_kernel::text::{decimal_text, space, trimmed};

#[test]
fn white_space_is_that_of_the_standard_library() {
    for code in 0..=0x10ffffu32 {
        if let Some(c) = char::from_u32(code) {
            assert_eq!(space(c), c.is_whitespace(), "U+{code:04X}");
        }
    }
}

#[test]
fn trimming_is_that_of_the_standard_library() {
    for input in ["", " ", "a", " a ", "\n\ta b\u{3000}\r\n", "\u{2003}", "a\u{200b} "] {
        let chars: Vec<char> = input.chars().collect();
        let result: String = trimmed(&chars).into_iter().collect();
        assert_eq!(result, input.trim());
    }
}

#[test]
fn numbers_are_spelled_in_decimal() {
    for n in [0, 7, 10, 99, 100, 4294967296, u64::MAX] {
        assert_eq!(decimal_text(n), n.to_string());
    }
}
