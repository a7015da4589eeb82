use snap2zombie::prefix::{starts_with, text_starts_with, ConfigError, PrefixSet};

fn strings(items: &[&str]) -> Vec<String> {
    items.iter().map(|s| String::from(*s)).collect()
}

fn chars(text: &str) -> Vec<char> {
    text.chars().collect()
}

#[test]
fn literals_come_first_then_pallets() {
    let set = PrefixSet::resolve(&strings(&["aa", "0102ff"]), &strings(&["System"])).unwrap();
    assert_eq!(set.prefixes.len(), 3);
    assert_eq!(set.prefixes[0], vec![0xaa]);
    assert_eq!(set.prefixes[1], vec![0x01, 0x02, 0xff]);
    assert_eq!(hex::encode(&set.prefixes[2]), "26aa394eea5630e07c48ae0c9558cef7");
    assert!(!set.is_empty());
}

#[test]
fn pallet_prefix_is_the_twox_128_of_the_name() {
    let set = PrefixSet::resolve(&vec![], &strings(&["PooledStaking", "Balances", ""])).unwrap();
    assert_eq!(
        set.hex_texts(),
        strings(&[
            "359e684ff9b0738b7dc97123fd114c24",
            "c2261276cc9d1f8598ea4b6a74b15c2f",
            "99e9d85137db46ef4bbea33613baafd5",
        ])
    );
    for prefix in &set.prefixes {
        assert_eq!(prefix.len(), 16);
    }
    let name = "Pallet\u{e9}";
    let set = PrefixSet::resolve(&vec![], &strings(&[name])).unwrap();
    assert_eq!(set.prefixes[0], sp_crypto_hashing::twox_128(name.as_bytes()).to_vec());
}

#[test]
fn literal_of_either_case_decodes() {
    let set = PrefixSet::resolve(&strings(&["AbCdEf", "", "00", "09af", "09AF"]), &vec![]).unwrap();
    assert_eq!(
        set.prefixes,
        vec![vec![0xab, 0xcd, 0xef], vec![], vec![0x00], vec![0x09, 0xaf], vec![0x09, 0xaf]]
    );
    assert_eq!(set.hex_texts(), strings(&["abcdef", "", "00", "09af", "09af"]));
}

#[test]
fn first_invalid_literal_is_reported() {
    let cases: Vec<(Vec<String>, &str)> = vec![
        (strings(&["aa", "abc", "zz"]), "abc"),
        (strings(&["0xaa"]), "0xaa"),
        (strings(&["aa", "a g1"]), "a g1"),
        (strings(&["\u{e9}"]), "\u{e9}"),
        (strings(&["\u{ff11}\u{ff12}"]), "\u{ff11}\u{ff12}"),
        (strings(&["a"]), "a"),
        (strings(&["aa\n"]), "aa\n"),
    ];
    for (literals, bad) in cases {
        let error = PrefixSet::resolve(&literals, &strings(&["System"])).unwrap_err();
        assert_eq!(error, ConfigError::InvalidPrefix { text: String::from(bad) });
        assert_eq!(
            error.message(),
            format!(
                "Failed to parse prefix key, should be in hex format (without leading 0x): {}",
                bad
            )
        );
    }
}

#[test]
fn no_prefixes_message_names_the_flags() {
    assert_eq!(
        ConfigError::NoPrefixes.message(),
        "Add at least one --pallet arg, or pass --all flag"
    );
}

#[test]
fn empty_configuration_gives_the_empty_set() {
    let set = PrefixSet::resolve(&vec![], &vec![]).unwrap();
    assert!(set.is_empty());
    assert!(set.prefixes.is_empty());
    assert!(!set.covers(&[1, 2, 3]));
    assert!(!set.covers_text(&chars("aa")));
    assert_eq!(set.hex_texts(), Vec::<String>::new());
}

#[test]
fn covers_asks_for_a_prefix_of_the_key() {
    let set = PrefixSet { prefixes: vec![vec![0xaa, 0xbb], vec![0xcc]] };
    assert!(set.covers(&[0xaa, 0xbb]));
    assert!(set.covers(&[0xaa, 0xbb, 0x00]));
    assert!(set.covers(&[0xcc]));
    assert!(set.covers(&[0xcc, 0xaa]));
    assert!(!set.covers(&[0xaa]));
    assert!(!set.covers(&[0xaa, 0xbc]));
    assert!(!set.covers(&[0xbb, 0xaa, 0xbb]));
    assert!(!set.covers(&[]));
    let with_empty = PrefixSet { prefixes: vec![vec![]] };
    assert!(with_empty.covers(&[]));
    assert!(with_empty.covers(&[9]));
}

#[test]
fn covers_text_compares_lowercase_digits() {
    let set = PrefixSet { prefixes: vec![vec![0xaa, 0xbb], vec![0x0c]] };
    assert!(set.covers_text(&chars("aabb")));
    assert!(set.covers_text(&chars("aabbc")));
    assert!(set.covers_text(&chars("0c")));
    assert!(set.covers_text(&chars("0cFF")));
    assert!(!set.covers_text(&chars("AABB")));
    assert!(!set.covers_text(&chars("aaBb")));
    assert!(!set.covers_text(&chars("0C")));
    assert!(!set.covers_text(&chars("aab")));
    assert!(!set.covers_text(&chars("c0")));
    assert!(!set.covers_text(&chars("")));
}

#[test]
fn covering_by_text_is_covering_by_bytes() {
    let set = PrefixSet { prefixes: vec![vec![0xaa, 0xbb], vec![0x0c], vec![0xff, 0x00, 0x10]] };
    let keys: Vec<Vec<u8>> = vec![
        vec![],
        vec![0xaa],
        vec![0xaa, 0xbb],
        vec![0xaa, 0xbb, 0xcc],
        vec![0xab, 0xbb],
        vec![0x0c],
        vec![0xc0],
        vec![0x0c, 0x0c],
        vec![0xff, 0x00],
        vec![0xff, 0x00, 0x10],
        vec![0xff, 0x00, 0x11],
    ];
    for key in keys {
        let text: Vec<char> = hex::encode(&key).chars().collect();
        assert_eq!(set.covers_text(&text), set.covers(&key), "key {:?}", key);
    }
}

#[test]
fn starts_with_examples() {
    assert!(starts_with(&[1, 2, 3], &[]));
    assert!(starts_with(&[1, 2, 3], &[1]));
    assert!(starts_with(&[1, 2, 3], &[1, 2, 3]));
    assert!(!starts_with(&[1, 2, 3], &[1, 2, 3, 4]));
    assert!(!starts_with(&[1, 2, 3], &[2]));
    assert!(!starts_with(&[], &[0]));
    assert!(starts_with(&[], &[]));
    assert!(text_starts_with(&chars("0a1b"), &[0x0a]));
    assert!(text_starts_with(&chars("0a1b"), &[0x0a, 0x1b]));
    assert!(text_starts_with(&chars("0a1"), &[0x0a]));
    assert!(!text_starts_with(&chars("0a1"), &[0x0a, 0x1b]));
    assert!(!text_starts_with(&chars("0A"), &[0x0a]));
    assert!(text_starts_with(&chars(""), &[]));
}
