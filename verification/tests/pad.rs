use snap2zombie::pad_with_spaces::{
    append_padding, fill_chunk, pad_with_spaces, padding_needed, PadWithSpacesCommand, Padding,
    CHUNK_SIZE, DEFAULT_FILL_BYTE, DEFAULT_TARGET_SIZE,
};

fn command(ascii_code: Option<u8>, target_size: Option<u64>) -> PadWithSpacesCommand {
    PadWithSpacesCommand {
        chain_spec_path: String::from("spec.json"),
        output_path: None,
        ascii_code,
        target_size,
    }
}

#[test]
fn pads_hundred_bytes_to_thousand_with_spaces() {
    let mut document: Vec<u8> = (0..100u8).map(|i| i | 0x80).collect();
    let original = document.clone();
    pad_with_spaces(&command(Some(0x20), Some(1000)), &mut document);
    assert_eq!(document.len(), 1000);
    assert_eq!(&document[..100], &original[..]);
    assert!(document[100..].iter().all(|b| *b == 0x20));
    assert_eq!(document[100..].len(), 900);
}

#[test]
fn padding_twice_is_padding_once() {
    let mut once = vec![1u8, 2, 3];
    pad_with_spaces(&command(Some(b'x'), Some(10)), &mut once);
    let mut twice = once.clone();
    pad_with_spaces(&command(Some(b'y'), Some(10)), &mut twice);
    assert_eq!(once, twice);
    assert_eq!(once, b"\x01\x02\x03xxxxxxx".to_vec());
}

#[test]
fn long_enough_document_is_left_alone() {
    let mut document = vec![7u8; 12];
    pad_with_spaces(&command(None, Some(12)), &mut document);
    assert_eq!(document, vec![7u8; 12]);
    pad_with_spaces(&command(None, Some(5)), &mut document);
    assert_eq!(document, vec![7u8; 12]);
    pad_with_spaces(&command(None, Some(0)), &mut document);
    assert_eq!(document, vec![7u8; 12]);
}

#[test]
fn defaults_are_space_and_two_gib() {
    let c = command(None, None);
    assert_eq!(c.fill_byte(), 0x20);
    assert_eq!(c.wanted_size(), 2 * 1024 * 1024 * 1024);
    assert_eq!(DEFAULT_FILL_BYTE, b' ');
    assert_eq!(DEFAULT_TARGET_SIZE, 2147483648);
    assert_eq!(CHUNK_SIZE, 1024 * 1024);
    let c = command(Some(0), Some(1));
    assert_eq!(c.fill_byte(), 0);
    assert_eq!(c.wanted_size(), 1);
}

#[test]
fn working_path_prefers_output_path() {
    let mut c = command(None, None);
    assert!(!c.copies_first());
    assert_eq!(c.working_path(), "spec.json");
    c.output_path = Some(String::from("out.json"));
    assert!(c.copies_first());
    assert_eq!(c.working_path(), "out.json");
}

#[test]
fn padding_needed_is_the_deficit() {
    assert_eq!(padding_needed(100, 1000), 900);
    assert_eq!(padding_needed(1000, 1000), 0);
    assert_eq!(padding_needed(1001, 1000), 0);
    assert_eq!(padding_needed(0, u64::MAX), u64::MAX);
    assert_eq!(padding_needed(u64::MAX, 0), 0);
}

#[test]
fn chunks_add_up_to_the_deficit() {
    let mut padding = Padding::plan(10, 10 + 2 * CHUNK_SIZE as u64 + 5);
    assert_eq!(padding.remaining, 2 * CHUNK_SIZE as u64 + 5);
    let mut writes = Vec::new();
    while !padding.is_done() {
        writes.push(padding.next_chunk());
    }
    assert_eq!(writes, vec![CHUNK_SIZE, CHUNK_SIZE, 5]);
    assert_eq!(padding.next_chunk(), 0);
    assert!(Padding::plan(10, 3).is_done());
}

#[test]
fn append_padding_crosses_chunk_boundaries() {
    let mut document = vec![9u8];
    append_padding(&mut document, b'-', CHUNK_SIZE as u64 + 3);
    assert_eq!(document.len(), CHUNK_SIZE + 4);
    assert_eq!(document[0], 9);
    assert!(document[1..].iter().all(|b| *b == b'-'));
    let chunk = fill_chunk(b'-');
    assert_eq!(chunk.len(), CHUNK_SIZE);
    assert!(chunk.iter().all(|b| *b == b'-'));
}
