use snap2zombie::line::read_record_key;
use snap2zombie::merge_into_raw::filter::KeyFilter;
use snap2zombie::prefix::{ConfigError, PrefixSet};
use snap2zombie::snap_2_json::{pooled_staking_prefix, run_snap_2_json, Snap2JsonCommand};
use snap2zombie::to_hex_snap::{
    export_lines, keeps_key, record_line, to_hex_snap, Entry, StorageCursor, ToHexSnapCommand,
};
use snap2zombie::to_json::{to_json, ToJsonCommand};

fn strings(items: &[&str]) -> Vec<String> {
    items.iter().map(|s| String::from(*s)).collect()
}

fn entries() -> Vec<Entry> {
    vec![
        (vec![0xaa, 0x01], vec![0x00]),
        (vec![0xbb, 0x02], vec![]),
        (vec![0xaa], vec![0xde, 0xad, 0xbe, 0xef]),
        (vec![], vec![0x01]),
        (sp_crypto_hashing::twox_128(b"System").to_vec(), vec![0x2a]),
        (hex::decode("359e684ff9b0738b7dc97123fd114c24ff").unwrap(), vec![0x07]),
    ]
}

fn hex_command(pallet: &[&str], prefix: &[&str]) -> ToHexSnapCommand {
    ToHexSnapCommand {
        pallet: strings(pallet),
        prefix: strings(prefix),
        snapshot_path: String::from("chain.snap"),
        output_path: String::from("chain.hexsnap"),
    }
}

#[test]
fn record_line_has_the_shape_of_a_top_entry() {
    assert_eq!(record_line(&[0xaa, 0x01], &[0x00]), "\"0xaa01\": \"0x00\",");
    assert_eq!(record_line(&[], &[]), "\"0x\": \"0x\",");
    assert_eq!(
        record_line(&[0x00, 0x0f, 0xf0, 0xff], &[0x12, 0xab]),
        "\"0x000ff0ff\": \"0x12ab\","
    );
}

#[test]
fn record_line_reads_back_as_a_record_with_the_key_text() {
    for (key, value) in entries() {
        let line = record_line(&key, &value);
        let text: String = read_record_key(&line).unwrap().into_iter().collect();
        assert_eq!(text, hex::encode(&key));
    }
}

#[test]
fn merge_filter_selects_a_record_when_a_prefix_begins_its_key() {
    let set = PrefixSet { prefixes: vec![vec![0xaa, 0x01], vec![0x26, 0xaa]] };
    let filter = KeyFilter { all: false, prefixes: set.clone() };
    for (key, value) in entries() {
        let line = record_line(&key, &value);
        assert_eq!(filter.selects(&line), set.covers(&key), "key {:?}", key);
    }
}

#[test]
fn without_prefixes_every_entry_is_exported() {
    let lines = to_hex_snap(&hex_command(&[], &[]), &entries()).unwrap();
    assert_eq!(
        lines,
        strings(&[
            "\"0xaa01\": \"0x00\",",
            "\"0xbb02\": \"0x\",",
            "\"0xaa\": \"0xdeadbeef\",",
            "\"0x\": \"0x01\",",
            "\"0x26aa394eea5630e07c48ae0c9558cef7\": \"0x2a\",",
            "\"0x359e684ff9b0738b7dc97123fd114c24ff\": \"0x07\",",
        ])
    );
}

#[test]
fn with_prefixes_only_covered_entries_are_exported() {
    let lines = to_hex_snap(&hex_command(&["System"], &["aa"]), &entries()).unwrap();
    assert_eq!(
        lines,
        strings(&[
            "\"0xaa01\": \"0x00\",",
            "\"0xaa\": \"0xdeadbeef\",",
            "\"0x26aa394eea5630e07c48ae0c9558cef7\": \"0x2a\",",
        ])
    );
    let lines = to_hex_snap(&hex_command(&[], &["aa01"]), &entries()).unwrap();
    assert_eq!(lines, strings(&["\"0xaa01\": \"0x00\","]));
    let lines = to_hex_snap(&hex_command(&[], &["cc"]), &entries()).unwrap();
    assert_eq!(lines, Vec::<String>::new());
    let lines = to_hex_snap(&hex_command(&[], &[""]), &entries()).unwrap();
    assert_eq!(lines.len(), 6);
}

#[test]
fn export_rejects_a_literal_that_is_not_hexadecimal() {
    let error = to_hex_snap(&hex_command(&["System"], &["aa", "xyz"]), &entries()).unwrap_err();
    assert_eq!(error, ConfigError::InvalidPrefix { text: String::from("xyz") });
    let error = hex_command(&[], &["abc"]).prefix_set().unwrap_err();
    assert_eq!(error, ConfigError::InvalidPrefix { text: String::from("abc") });
}

#[test]
fn keeps_key_keeps_everything_without_prefixes() {
    let none = PrefixSet { prefixes: vec![] };
    assert!(keeps_key(&none, &[1, 2]));
    assert!(keeps_key(&none, &[]));
    let some = PrefixSet { prefixes: vec![vec![1]] };
    assert!(keeps_key(&some, &[1, 2]));
    assert!(!keeps_key(&some, &[2, 1]));
    assert!(!keeps_key(&some, &[]));
    assert_eq!(export_lines(&some, &vec![(vec![1, 2], vec![3]), (vec![2], vec![4])]), strings(&["\"0x0102\": \"0x03\","]));
}

#[test]
fn to_json_filters_by_literal_prefixes() {
    let command = |prefix: &[&str]| ToJsonCommand {
        pallet: vec![],
        prefix: strings(prefix),
        snapshot_path: String::from("chain.snap"),
        output_path: String::from("chain.json"),
    };
    assert_eq!(to_json(&command(&[]), &entries()).unwrap().len(), 6);
    assert_eq!(
        to_json(&command(&["bb", "aa01"]), &entries()).unwrap(),
        strings(&["\"0xaa01\": \"0x00\",", "\"0xbb02\": \"0x\","])
    );
    assert_eq!(
        to_json(&command(&["bb", "0xaa"]), &entries()).unwrap_err(),
        ConfigError::InvalidPrefix { text: String::from("0xaa") }
    );
}

#[test]
fn snap_2_json_writes_the_pooled_staking_entries() {
    assert_eq!(hex::encode(pooled_staking_prefix()), "359e684ff9b0738b7dc97123fd114c24");
    assert_eq!(
        pooled_staking_prefix(),
        sp_crypto_hashing::twox_128(b"PooledStaking").to_vec()
    );
    let command = Snap2JsonCommand {
        pallet: strings(&["System"]),
        prefix: strings(&["aa"]),
        snapshot_path: String::from("chain.snap"),
        output_path: String::from("chain.json"),
    };
    assert_eq!(
        run_snap_2_json(&command, &entries()),
        strings(&["\"0x359e684ff9b0738b7dc97123fd114c24ff\": \"0x07\","])
    );
    assert_eq!(run_snap_2_json(&command, &vec![]), Vec::<String>::new());
}

#[test]
fn storage_cursor_follows_the_keys_handed_out() {
    let mut cursor = StorageCursor::start();
    assert_eq!(cursor.after, Vec::<u8>::new());
    let entry = cursor.advance(Some((vec![1, 2], vec![3])));
    assert_eq!(entry, Some((vec![1, 2], vec![3])));
    assert_eq!(cursor.after, vec![1, 2]);
    let entry = cursor.advance(Some((vec![1, 3], vec![])));
    assert_eq!(entry, Some((vec![1, 3], vec![])));
    assert_eq!(cursor.after, vec![1, 3]);
    assert_eq!(cursor.advance(None), None);
    assert_eq!(cursor.after, vec![1, 3]);
}
