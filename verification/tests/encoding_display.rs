//! The hex and decimal encodings and the stable display form of events.

use network_indexer::encoding::hash_to_hex;
use network_indexer::encoding::parse_hash_hex;
use network_indexer::event::NetworkIndexerEvent;
use network_indexer::event::format_block_pointer;
use network_indexer::types::BlockHash;
use network_indexer::types::BlockPointer;

fn hash(tag: u64) -> BlockHash {
    BlockHash { w0: 0, w1: 0, w2: 0, w3: tag }
}

#[test]
fn hash_hex_is_sixty_four_lowercase_digits() {
    let h = BlockHash {
        w0: 0x0123456789abcdef,
        w1: 0xfedcba9876543210,
        w2: 0x00000000000000aa,
        w3: 0xbb00000000000000,
    };
    assert_eq!(
        hash_to_hex(&h),
        "0123456789abcdeffedcba987654321000000000000000aabb00000000000000"
    );
}

#[test]
fn hash_hex_of_zero() {
    let h = BlockHash { w0: 0, w1: 0, w2: 0, w3: 0 };
    let hex = hash_to_hex(&h);
    assert_eq!(hex.len(), 64);
    assert!(hex.chars().all(|c| c == '0'));
}

#[test]
fn parse_hex_round_trips() {
    let h = BlockHash {
        w0: 0xdeadbeef00112233,
        w1: 0x445566778899aabb,
        w2: 0xccddeeff01020304,
        w3: 0x05060708090a0b0c,
    };
    assert_eq!(parse_hash_hex(&hash_to_hex(&h)), Some(h));
}

#[test]
fn parse_hex_accepts_upper_case() {
    let lower = "00000000000000aa0000000000000000000000000000000000000000000000bb";
    let upper = "00000000000000AA0000000000000000000000000000000000000000000000BB";
    let parsed = parse_hash_hex(upper).expect("upper case hex parses");
    assert_eq!(Some(parsed), parse_hash_hex(lower));
    assert_eq!(parsed.w0, 0xaa);
    assert_eq!(parsed.w3, 0xbb);
}

#[test]
fn parse_hex_refuses_wrong_length_and_bad_digits() {
    assert_eq!(parse_hash_hex(""), None);
    assert_eq!(parse_hash_hex("aa"), None);
    // 63 digits
    assert_eq!(
        parse_hash_hex("000000000000000000000000000000000000000000000000000000000000000"),
        None
    );
    // 65 digits
    assert_eq!(
        parse_hash_hex("00000000000000000000000000000000000000000000000000000000000000000"),
        None
    );
    // a non-hex character
    assert_eq!(
        parse_hash_hex("000000000000000000000000000000g0000000000000000000000000000000aa"),
        None
    );
    // a 0x prefix is not accepted
    assert_eq!(
        parse_hash_hex("0x0000000000000000000000000000000000000000000000000000000000aabb"),
        None
    );
}

#[test]
fn block_pointer_display() {
    let p = BlockPointer { number: 12045, hash: hash(0xaa) };
    assert_eq!(
        format_block_pointer(&p),
        "#12045/00000000000000000000000000000000000000000000000000000000000000aa"
    );
}

#[test]
fn block_pointer_display_zero() {
    let p = BlockPointer { number: 0, hash: hash(0) };
    assert_eq!(
        format_block_pointer(&p),
        "#0/0000000000000000000000000000000000000000000000000000000000000000"
    );
}

#[test]
fn add_block_event_display() {
    let e = NetworkIndexerEvent::AddBlock(BlockPointer { number: 7, hash: hash(0xcc) });
    assert_eq!(
        e.display_string(),
        "Add block: #7/00000000000000000000000000000000000000000000000000000000000000cc"
    );
}

#[test]
fn revert_event_display() {
    let e = NetworkIndexerEvent::Revert {
        from: BlockPointer { number: 2, hash: hash(0xcc) },
        to: BlockPointer { number: 1, hash: hash(0xbb) },
    };
    assert_eq!(
        e.display_string(),
        "Revert: From #2/00000000000000000000000000000000000000000000000000000000000000cc \
         to #1/00000000000000000000000000000000000000000000000000000000000000bb"
    );
}

#[test]
fn large_number_display() {
    let p = BlockPointer { number: u64::MAX, hash: hash(1) };
    let s = format_block_pointer(&p);
    assert!(s.starts_with("#18446744073709551615/"));
}
