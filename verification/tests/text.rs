use hft_bot::text::{chars_of, same, split, split_lines, string_of, trim};

fn strings(parts: &Vec<Vec<char>>) -> Vec<String> {
    parts.iter().map(string_of).collect()
}

#[test]
fn splitting_keeps_empty_pieces() {
    assert_eq!(strings(&split(&chars_of("a,,b,"), ',')), vec!["a", "", "b", ""]);
    assert_eq!(strings(&split(&chars_of(""), ',')), vec![""]);
}

#[test]
fn lines_end_with_line_feeds() {
    for text in ["", "a", "a\n", "a\nb", "a\r\nb\r\n", "\n\n", "a\r", "x\ry\n"] {
        let expected: Vec<&str> = text.lines().collect();
        assert_eq!(strings(&split_lines(&chars_of(text))), expected);
    }
}

#[test]
fn trimming_takes_white_space_at_both_ends() {
    for text in ["", " ", " a b ", "\t\u{3000}x\n", "y"] {
        assert_eq!(string_of(&trim(&chars_of(text))), text.trim());
    }
}

#[test]
fn texts_are_compared_by_their_characters() {
    assert!(same(&chars_of("列"), &chars_of("列")));
    assert!(!same(&chars_of("a"), &chars_of("ab")));
    assert!(!same(&chars_of("ab"), &chars_of("ac")));
}

#[test]
fn white_space_is_what_unicode_says() {
    let mut found = 0;
    for code in 0..=0x10ffffu32 {
        if let Some(c) = char::from_u32(code) {
            let expected = matches!(
                code,
                0x9..=0xd | 0x20 | 0x85 | 0xa0 | 0x1680 | 0x2000..=0x200a | 0x2028 | 0x2029
                    | 0x202f | 0x205f | 0x3000
            );
            assert_eq!(trim(&vec![c]).is_empty(), expected);
            if expected {
                found += 1;
            }
        }
    }
    assert_eq!(found, 25);
}
