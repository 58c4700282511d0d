use trust_list::http_client::{reversed, user_agent, USER_AGENT};
use trust_list::text::{
    chars_of, is_whitespace_char, join_strings, lines_of, push_chars, push_decimal, push_str,
    push_two_digits, split_chars, starts_with, string_of, trim_chars,
};

fn chars(text: &str) -> Vec<char> {
    text.chars().collect()
}

fn texts(pieces: Vec<Vec<char>>) -> Vec<String> {
    pieces.iter().map(|piece| piece.iter().collect()).collect()
}

#[test]
fn characters_of_a_text_and_back() {
    assert_eq!(vec!['a', 'é', '|', '\n', '🦀'], chars_of("aé|\n🦀"));
    assert_eq!(Vec::<char>::new(), chars_of(""));
    assert_eq!("aé|\n🦀", string_of(&chars("aé|\n🦀")));
    let mut text = "x".to_string();
    push_chars(&mut text, &chars("yz"));
    push_str(&mut text, "!");
    assert_eq!("xyz!", text);
}

#[test]
fn decimal_numbers() {
    for (n, expected) in [
        (0, "0"),
        (9, "9"),
        (10, "10"),
        (1861, "1861"),
        (1_000_000, "1000000"),
        (u64::MAX, "18446744073709551615"),
    ] {
        let mut text = String::new();
        push_decimal(&mut text, n);
        assert_eq!(expected, text);
        assert_eq!(n.to_string(), text);
    }
    for d in 0..10u64 {
        let mut text = String::new();
        push_decimal(&mut text, d);
        assert_eq!(d.to_string(), text);
    }
}

#[test]
fn two_digits_have_a_leading_zero_below_ten() {
    for (n, expected) in [(0, "00"), (1, "01"), (9, "09"), (10, "10"), (31, "31"), (100, "100")] {
        let mut text = "|".to_string();
        push_two_digits(&mut text, n);
        assert_eq!(format!("|{expected}"), text);
    }
}

#[test]
fn white_space_is_what_the_standard_library_takes_it_for() {
    for code in 0..=0x11_0000u32 {
        if let Some(c) = char::from_u32(code) {
            assert_eq!(c.is_whitespace(), is_whitespace_char(c), "U+{code:04X}");
        }
    }
}

#[test]
fn trimming_takes_white_space_off_both_ends_only() {
    for text in [
        "",
        " ",
        "a",
        "  a b  ",
        "\t\r\n a\u{a0}",
        "\u{2003}x\u{3000}y\u{205f}",
        " \u{200b} ",
        "|  |",
    ] {
        assert_eq!(text.trim(), string_of(&trim_chars(&chars(text))), "{text:?}");
    }
}

#[test]
fn splitting_gives_one_piece_more_than_separators() {
    for text in ["", "|", "a", "a|b", "|a|", "a||b|", "|||", "no pipes here", "é|🦀"] {
        assert_eq!(
            text.split('|').map(String::from).collect::<Vec<_>>(),
            texts(split_chars(&chars(text), '|')),
            "{text:?}"
        );
    }
}

#[test]
fn lines_end_with_a_line_feed_and_the_last_need_not() {
    for text in [
        "",
        "\n",
        "a",
        "a\n",
        "a\nb",
        "a\n\nb\n",
        "\n\n",
        "a\r\nb\r\n",
        "a\rb\r",
        "a\r\r\n\r",
        "\r\n",
        "\r",
        "a\n\r",
    ] {
        assert_eq!(
            text.lines().map(String::from).collect::<Vec<_>>(),
            texts(lines_of(&chars(text))),
            "{text:?}"
        );
    }
}

#[test]
fn beginnings() {
    assert!(starts_with(&chars("https://github.com/o/r"), &chars("https://github.com/")));
    assert!(starts_with(&chars("abc"), &chars("")));
    assert!(starts_with(&chars("abc"), &chars("abc")));
    assert!(!starts_with(&chars("abc"), &chars("abcd")));
    assert!(!starts_with(&chars("abc"), &chars("b")));
}

#[test]
fn joining_puts_the_separator_between() {
    let join = |pieces: &[&str], sep: &str| {
        join_strings(&pieces.iter().map(|piece| piece.to_string()).collect(), sep)
    };
    assert_eq!("", join(&[], "|"));
    assert_eq!("a", join(&["a"], "|"));
    assert_eq!("a|b|c", join(&["a", "b", "c"], "|"));
    assert_eq!("|", join(&["", ""], "|"));
    assert_eq!("no-dev,no-build", join(&["no-dev", "no-build"], ","));
    assert_eq!("a, b", join(&["a", "b"], ", "));
}

#[test]
fn contact_address_is_the_constant_backwards() {
    assert_eq!("trust-list@outlook.com", user_agent());
    assert_eq!(USER_AGENT.chars().rev().collect::<String>(), user_agent());
    assert_eq!("", reversed(""));
    assert_eq!("🦀ba", reversed("ab🦀"));
}
