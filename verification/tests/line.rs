use regex::Regex;
use snap2zombie::hex_text::{is_hex_char, lower_digit_of};
use snap2zombie::line::{
    chars_of, is_space_char, line_closes_object, line_opens_top, read_record_key,
};
use snap2zombie::merge_into_raw::filter::KeyFilter;
use snap2zombie::prefix::PrefixSet;

fn key_of(line: &str) -> Option<String> {
    read_record_key(line).map(|chars| chars.into_iter().collect())
}

fn sample_lines() -> Vec<String> {
    let mut lines: Vec<String> = vec![
        "",
        " ",
        "{",
        "}",
        "  },",
        "\"top\": {",
        "  \"top\": {",
        "\"top\":{",
        "\"top\":   \t {",
        "\"top\":\u{a0}\u{2003}{",
        "\"top\":\u{200b}{",
        "\"top\": x{",
        "\"top\" : {",
        "\"top\":",
        "\"top\": ",
        "\"Top\": {",
        "top: {",
        "\"desktop\": {",
        "x\"top\"top\": {",
        "\"top\"\"top\": {",
        "\"top\":\"top\": {",
        "\"top\": [ \"top\":{",
        "\"raw\": { \"top\": { } }",
        "\"0xaa01\": \"0x00\",",
        "\"0xaa01\": \"0x00\"",
        "  \"0xaa01\": \"0x00\",",
        "\t\"0xaa01\"\t:\"0x00\",",
        "\u{a0}\"0xaa01\"\u{3000}: \"0x00\",",
        "\u{85}\u{1680}\u{2028}\u{2029}\u{202f}\u{205f}\"0xaa\":",
        "\u{200b}\"0xaa01\": \"0x00\",",
        "\u{feff}\"0xaa01\": \"0x00\",",
        "\u{180e}\"0xaa01\": \"0x00\",",
        "\"0xAA01\": \"0x00\",",
        "\"0xaA01\": \"0x00\",",
        "\"0xaaBB\": \"0x00\",",
        "\"0xaabbCCdd\": \"0x00\",",
        "\"0xbb02\": \"0x01\",",
        "\"0xa\": \"0x01\",",
        "\"0xaab\": \"0x01\",",
        "\"0x\": \"0x01\",",
        "\"0x\":",
        "\"0xaa\":",
        "\"0xaa\"",
        "\"0xaa\" ",
        "\"0xaa\" x:",
        "\"0xaa\"::",
        "\"0xaag1\": \"0x00\",",
        "\"0xaa 01\": \"0x00\",",
        "\"0Xaa01\": \"0x00\",",
        "\"aa01\": \"0x00\",",
        "0xaa01: 0x00",
        "'0xaa01': '0x00',",
        "x \"0xaa01\": \"0x00\",",
        "\"0xaa01\": \"0x00\", }",
        "\"0xaa01}\": \"0x00\",",
        "\"0xcc03\": \"0x7d\",",
        "\"0xaa\u{e9}\":",
        "\"0x\u{ff10}\u{ff11}\":",
        "\"name\": \"Local Testnet\",",
        "\"properties\": {",
        "\"codeSubstitutes\": {},",
        "\"\"0xaa\":",
        "\"0x0xaa\":",
        "\n\"0xaa\":",
        "\r\"0xaa\":\r",
        "\u{b}\u{c}\"0xaa\"\u{b}:",
        "\u{1c}\"0xaa\":",
        "\u{8}\"0xaa\":",
    ]
    .into_iter()
    .map(String::from)
    .collect();
    lines.push(format!("\"0x{}\": \"0x{}\",", "aa".repeat(300), "00".repeat(5000)));
    lines.push(format!("{}\"top\": {{", " ".repeat(1000)));
    lines.push(format!("\"top\":{}{{", "\t".repeat(1000)));
    lines.push(format!("\"top\":{}", "\t".repeat(1000)));
    lines
}

fn sample_prefix_sets() -> Vec<Vec<Vec<u8>>> {
    vec![
        vec![],
        vec![vec![]],
        vec![vec![0xaa]],
        vec![vec![0xbb], vec![0xaa, 0x01]],
        vec![vec![0xaa, 0xbb]],
        vec![vec![0xaa, 0xbb, 0xcc, 0xdd, 0xee]],
        vec![vec![0x0a], vec![0xa0]],
        vec![vec![0xcc, 0x03], vec![0xcc]],
        vec![vec![0xaa; 300]],
        vec![vec![0xaa; 301]],
    ]
}

#[test]
fn record_filter_agrees_with_the_deletion_pattern() {
    for prefixes in sample_prefix_sets() {
        let hexes: Vec<String> = prefixes.iter().map(hex::encode).collect();
        let pattern = format!(r#"^\s*"0x(?:{})[0-9a-fA-F]*"\s*:"#, hexes.join("|"));
        let deletion = Regex::new(&pattern).unwrap();
        let filter = KeyFilter { all: false, prefixes: PrefixSet { prefixes: prefixes.clone() } };
        for line in sample_lines() {
            let expected = if prefixes.is_empty() { false } else { deletion.is_match(&line) };
            assert_eq!(filter.selects(&line), expected, "line {:?}, prefixes {:?}", line, hexes);
        }
    }
}

#[test]
fn record_shape_agrees_with_the_pattern_of_any_key() {
    let any_key = Regex::new(r#"^\s*"0x[0-9a-fA-F]*"\s*:"#).unwrap();
    let with_key = Regex::new(r#"^\s*"0x([0-9a-fA-F]*)"\s*:"#).unwrap();
    for line in sample_lines() {
        let key = key_of(&line);
        assert_eq!(key.is_some(), any_key.is_match(&line), "line {:?}", line);
        if let Some(key) = key {
            let found = with_key.captures(&line).unwrap();
            assert_eq!(key, &found[1], "line {:?}", line);
        }
    }
}

#[test]
fn top_opener_agrees_with_the_insertion_pattern() {
    let top = Regex::new(r#""top":\s*\{"#).unwrap();
    for line in sample_lines() {
        assert_eq!(line_opens_top(&line), top.is_match(&line), "line {:?}", line);
    }
}

#[test]
fn object_close_is_a_closing_brace_anywhere() {
    for line in sample_lines() {
        assert_eq!(line_closes_object(&line), line.contains("}"), "line {:?}", line);
    }
    assert!(line_closes_object("}"));
    assert!(line_closes_object("\"a\": {},"));
    assert!(!line_closes_object("{"));
    assert!(!line_closes_object(""));
}

#[test]
fn whitespace_is_the_unicode_property() {
    let space = Regex::new(r"^\s$").unwrap();
    let mut count = 0;
    for code in 0u32..0x11_0000 {
        if let Some(c) = char::from_u32(code) {
            let mut buffer = [0u8; 4];
            let text: &str = c.encode_utf8(&mut buffer);
            assert_eq!(is_space_char(c), space.is_match(text), "U+{:04X}", code);
            assert_eq!(is_space_char(c), c.is_whitespace(), "U+{:04X}", code);
            if is_space_char(c) {
                count += 1;
            }
        }
    }
    assert_eq!(count, 25);
}

#[test]
fn hex_digits_are_ascii_of_either_case() {
    for code in 0u32..0x11_0000 {
        if let Some(c) = char::from_u32(code) {
            assert_eq!(is_hex_char(c), c.is_ascii_hexdigit(), "U+{:04X}", code);
        }
    }
    let digits: String = (0u8..16).map(lower_digit_of).collect();
    assert_eq!(digits, "0123456789abcdef");
}

#[test]
fn record_key_is_the_text_between_0x_and_the_quote() {
    assert_eq!(key_of("\"0xaa01\": \"0x00\","), Some(String::from("aa01")));
    assert_eq!(key_of("  \"0xAbCd\"  :"), Some(String::from("AbCd")));
    assert_eq!(key_of("\"0x\":"), Some(String::new()));
    assert_eq!(key_of("\"0xaa01\""), None);
    assert_eq!(key_of("\"0xaa0g\":"), None);
    assert_eq!(key_of("\"aa01\":"), None);
    assert_eq!(key_of(""), None);
    assert_eq!(key_of("\""), None);
    assert_eq!(key_of("\"0"), None);
    assert_eq!(key_of("\"0x"), None);
    assert_eq!(key_of("\"0xaa"), None);
}

#[test]
fn chars_of_gives_the_characters_in_order() {
    assert_eq!(chars_of(""), Vec::<char>::new());
    assert_eq!(chars_of("a\u{e9}\u{1f600}z"), vec!['a', '\u{e9}', '\u{1f600}', 'z']);
}

#[test]
fn top_opener_examples() {
    assert!(line_opens_top("  \"top\": {"));
    assert!(line_opens_top("\"top\":{"));
    assert!(line_opens_top("\"raw\": {\"top\": {"));
    assert!(line_opens_top("\"top\": x \"top\":  {"));
    assert!(!line_opens_top("\"top\": x {"));
    assert!(!line_opens_top("\"top\" : {"));
    assert!(!line_opens_top("\"top\":"));
    assert!(!line_opens_top("\"top\""));
    assert!(!line_opens_top("top"));
    assert!(!line_opens_top(""));
}

/// A small deterministic generator of lines over the characters that the
/// grammar tells apart.
struct Lines {
    state: u64,
}

impl Lines {
    fn next_number(&mut self) -> u64 {
        self.state = self
            .state
            .wrapping_mul(6364136223846793005)
            .wrapping_add(1442695040888963407);
        self.state >> 33
    }

    fn next_line(&mut self) -> String {
        const ALPHABET: [char; 20] = [
            '"', '"', '0', 'x', 'a', 'a', 'b', 'A', 'f', 'g', '1', ' ', '\t', '\u{a0}', ':', ':',
            '{', '}', 't', 'o',
        ];
        const PIECES: [&str; 6] = ["\"top\":", "\"0x", "\"0xaa", "\":", "\": \"0x", "p"];
        let length = self.next_number() % 9;
        let mut line = String::new();
        for _ in 0..length {
            let pick = self.next_number() % 26;
            if pick < 20 {
                line.push(ALPHABET[pick as usize]);
            } else {
                line.push_str(PIECES[(pick - 20) as usize]);
            }
        }
        line
    }
}

#[test]
fn generated_lines_agree_with_the_patterns() {
    let top = Regex::new(r#""top":\s*\{"#).unwrap();
    let sets: Vec<Vec<Vec<u8>>> = vec![
        vec![vec![0xaa]],
        vec![vec![0xab], vec![0xaa, 0xa1]],
        vec![vec![]],
        vec![vec![0x0a], vec![0xfa, 0xaf]],
    ];
    let filters: Vec<(Regex, KeyFilter)> = sets
        .into_iter()
        .map(|prefixes| {
            let hexes: Vec<String> = prefixes.iter().map(hex::encode).collect();
            let pattern = format!(r#"^\s*"0x(?:{})[0-9a-fA-F]*"\s*:"#, hexes.join("|"));
            (
                Regex::new(&pattern).unwrap(),
                KeyFilter { all: false, prefixes: PrefixSet { prefixes } },
            )
        })
        .collect();
    let mut lines = Lines { state: 2024 };
    let mut records = 0;
    let mut tops = 0;
    for _ in 0..60000 {
        let line = lines.next_line();
        assert_eq!(line_opens_top(&line), top.is_match(&line), "line {:?}", line);
        assert_eq!(line_closes_object(&line), line.contains('}'), "line {:?}", line);
        for (deletion, filter) in &filters {
            assert_eq!(filter.selects(&line), deletion.is_match(&line), "line {:?}", line);
        }
        if filters[2].1.selects(&line) {
            records += 1;
        }
        if line_opens_top(&line) {
            tops += 1;
        }
    }
    assert!(records > 50, "only {} records were generated", records);
    assert!(tops > 50, "only {} top lines were generated", tops);
}
