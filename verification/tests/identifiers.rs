use objstore::data::{hash, BlockHash, Uuid};
use objstore::order::{bytes_eq, bytes_le, str_le};

fn unhex(s: &str) -> Vec<u8> {
    hex::decode(s).unwrap()
}

#[test]
fn hash_of_abc_is_its_sha256() {
    let h = hash(b"abc");
    assert_eq!(
        h.bytes.to_vec(),
        unhex("ba7816bf8f01cfea414140de5dae2223b00361a396177a9cb410ff61f20015ad")
    );
}

#[test]
fn hash_of_nothing_is_the_digest_of_the_empty_string() {
    let h = hash(b"");
    assert_eq!(
        h.to_hex(),
        "e3b0c44298fc1c149afbf4c8996fb92427ae41e4649b934ca495991b7852b855"
    );
}

#[test]
fn hash_differs_from_its_input() {
    let input = [7u8; 32];
    let h = hash(&input);
    assert_ne!(h.bytes, input);
}

#[test]
fn equal_blocks_have_equal_hashes() {
    assert!(hash(b"block").same(&hash(b"block")));
    assert!(!hash(b"block").same(&hash(b"other")));
}

#[test]
fn hex_has_two_lower_case_digits_per_byte() {
    let mut bytes = [0u8; 16];
    bytes[0] = 0x01;
    bytes[1] = 0xab;
    bytes[15] = 0xf0;
    let u = Uuid { bytes };
    assert_eq!(u.to_hex(), "01ab00000000000000000000000000f0");
}

#[test]
fn zero_uuid_is_recognised() {
    assert!(Uuid::zero().is_zero());
    assert_eq!(Uuid::zero().bytes, [0u8; 16]);
    assert!(!Uuid { bytes: [1u8; 16] }.is_zero());
    assert_eq!(Uuid::zero().to_hex(), "0".repeat(32));
}

#[test]
fn uuids_compare_by_bytes() {
    let a = Uuid { bytes: [1u8; 16] };
    let mut later = [1u8; 16];
    later[15] = 2;
    let b = Uuid { bytes: later };
    assert!(a.le(&b));
    assert!(!b.le(&a));
    assert!(a.le(&a));
    assert!(a.same(&a));
    assert!(!a.same(&b));
}

#[test]
fn hashes_compare_by_bytes() {
    let a = BlockHash { bytes: [0u8; 32] };
    let b = BlockHash { bytes: [0xffu8; 32] };
    assert!(a.le(&b));
    assert!(!b.le(&a));
}

#[test]
fn byte_order_is_lexicographic() {
    assert!(bytes_le(b"", b""));
    assert!(bytes_le(b"", b"a"));
    assert!(!bytes_le(b"a", b""));
    assert!(bytes_le(b"ab", b"b"));
    assert!(bytes_le(b"ab", b"abc"));
    assert!(!bytes_le(b"abc", b"ab"));
    assert!(bytes_le(b"abc", b"abc"));
    assert!(!bytes_le(&[0x80], &[0x7f]));
}

#[test]
fn byte_equality() {
    assert!(bytes_eq(b"abc", b"abc"));
    assert!(!bytes_eq(b"abc", b"abd"));
    assert!(!bytes_eq(b"abc", b"ab"));
    assert!(bytes_eq(b"", b""));
}

#[test]
fn text_order_is_that_of_the_utf8_bytes() {
    assert!(str_le("apple", "banana"));
    assert!(!str_le("banana", "apple"));
    assert!(str_le("z", "é"));
    assert!(!str_le("é", "z"));
    assert!(str_le("same", "same"));
}
