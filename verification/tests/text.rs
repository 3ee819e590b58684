use ribbit::text::{
    chars_of, first_char, is_space_char, parse_number, same_text, split_lines, split_text,
    strip_prefix, strip_suffix, trim_text,
};

fn strings(items: &[&str]) -> Vec<String> {
    items.iter().map(|s| s.to_string()).collect()
}

#[test]
fn split_text_matches_std_split() {
    for (text, sep) in [
        ("a|b|c", '|'),
        ("", '|'),
        ("|", '|'),
        ("||", '|'),
        ("a|", '|'),
        ("|a", '|'),
        ("no separator", '|'),
        ("Name!STRING", '!'),
        ("k = v = w", '='),
        ("héllo wörld ünï", ' '),
        ("a  b", ' '),
    ] {
        let expected: Vec<String> = text.split(sep).map(|s| s.to_string()).collect();
        assert_eq!(split_text(text, sep), expected, "splitting {:?} at {:?}", text, sep);
    }
}

#[test]
fn split_text_exact_pieces() {
    assert_eq!(split_text("a|b||c|", '|'), strings(&["a", "b", "", "c", ""]));
    assert_eq!(split_text("", ','), strings(&[""]));
}

#[test]
fn split_lines_matches_std_lines() {
    for text in [
        "",
        "\n",
        "one",
        "one\n",
        "one\ntwo",
        "one\r\ntwo\r\n",
        "one\n\ntwo\n\n",
        "one\r",
        "one\r\r\n",
        "\r\n",
        "a\rb\nc",
        "tail\n\r",
        "ünï\r\ncödé",
    ] {
        let expected: Vec<String> = text.lines().map(|s| s.to_string()).collect();
        assert_eq!(split_lines(text), expected, "lines of {:?}", text);
    }
}

#[test]
fn split_lines_exact() {
    assert_eq!(split_lines("h\r\n# c\r\nrow\r\n"), strings(&["h", "# c", "row"]));
    assert_eq!(split_lines("a\n\nb"), strings(&["a", "", "b"]));
    assert_eq!(split_lines(""), Vec::<String>::new());
    assert_eq!(split_lines("x\r"), strings(&["x\r"]));
}

#[test]
fn trim_text_matches_std_trim() {
    for text in [
        "",
        " ",
        "  a  ",
        "\t\n\r x y \u{b}\u{c}",
        "\u{85}\u{a0}\u{1680}v\u{2000}\u{200a}\u{2028}\u{2029}\u{202f}\u{205f}\u{3000}",
        "\u{200b}kept\u{200b}",
        "\u{1f}x\u{e}",
        " 100 ",
        "inner  space",
    ] {
        assert_eq!(trim_text(text), text.trim(), "trimming {:?}", text);
    }
}

#[test]
fn is_space_char_matches_std() {
    for code in 0u32..0x3100 {
        if let Some(c) = char::from_u32(code) {
            assert_eq!(is_space_char(c), c.is_whitespace(), "U+{:04X}", code);
        }
    }
    assert!(!is_space_char('\u{feff}'));
    assert!(!is_space_char('\u{10ffff}'));
}

#[test]
fn parse_number_matches_std_parse() {
    for text in [
        "0",
        "7",
        "100",
        "-100",
        "+100",
        "-0",
        "+0",
        "007",
        "2147483647",
        "2147483648",
        "-2147483648",
        "-2147483649",
        "+2147483647",
        "99999999999999999999999999",
        "-99999999999999999999999999",
        "00000000000000000000000000000000000001",
        "",
        "-",
        "+",
        "+-1",
        "--1",
        "1-",
        " 1",
        "1 ",
        "1_000",
        "12a",
        "a12",
        "N/A",
        "0x10",
        "1.5",
        "１２",
        "٣",
    ] {
        assert_eq!(parse_number(text), text.parse::<i32>().ok(), "parsing {:?}", text);
    }
}

#[test]
fn parse_number_exact_values() {
    assert_eq!(parse_number("52237"), Some(52237));
    assert_eq!(parse_number("-17"), Some(-17));
    assert_eq!(parse_number("-2147483648"), Some(i32::MIN));
    assert_eq!(parse_number("2147483647"), Some(i32::MAX));
    assert_eq!(parse_number("2147483648"), None);
    assert_eq!(parse_number("N/A"), None);
}

#[test]
fn chars_of_reads_every_character() {
    assert_eq!(chars_of("aé😀"), vec!['a', 'é', '😀']);
    assert_eq!(chars_of(""), Vec::<char>::new());
}

#[test]
fn pieces_of_text_beyond_ascii() {
    assert_eq!(split_text("hé😀|llo|ü", '|'), strings(&["hé😀", "llo", "ü"]));
    assert_eq!(split_text("a😀b😀", '😀'), strings(&["a", "b", ""]));
    assert_eq!(trim_text("\u{3000}é \u{a0}"), "é");
}

#[test]
fn first_char_and_same_text() {
    assert_eq!(first_char(""), None);
    assert_eq!(first_char("#x"), Some('#'));
    assert_eq!(first_char("éa"), Some('é'));
    assert!(same_text("", ""));
    assert!(same_text("Seqn", "Seqn"));
    assert!(!same_text("Seqn", "seqn"));
    assert!(!same_text("Seqn", "Seqn "));
    assert!(!same_text("a", ""));
}

#[test]
fn strip_prefix_and_suffix_match_std() {
    for (text, part) in [
        ("v2/products/pro/cdns", "v2/products/"),
        ("v2/products/pro/cdns", "/cdns"),
        ("v2/products/pro/cdns", "/bgdl"),
        ("abc", "abc"),
        ("abc", ""),
        ("", ""),
        ("", "a"),
        ("ab", "abc"),
        ("aaa", "aa"),
        ("héllo", "hé"),
        ("héllo", "llo"),
    ] {
        assert_eq!(
            strip_prefix(text, part),
            text.strip_prefix(part).map(|s| s.to_string()),
            "prefix {:?} of {:?}",
            part,
            text
        );
        assert_eq!(
            strip_suffix(text, part),
            text.strip_suffix(part).map(|s| s.to_string()),
            "suffix {:?} of {:?}",
            part,
            text
        );
    }
}
