use lx_music_sync::utils::crypto::{hex_to_md5, is_md5_hex_str, md5_to_hex, to_md5};
use openssl::hash::{hash, MessageDigest};
use rand::Rng;

#[test]
fn test_md5() {
    let mut rng = rand::rng();
    let data: Vec<u8> = (0..32).map(|_| rng.random()).collect();
    let res = hash(MessageDigest::md5(), &data).unwrap();
    assert_eq!(res.len(), 16);
}

#[test]
fn md5_of_empty_input() {
    let md5 = to_md5(b"").unwrap();
    assert_eq!(md5, 0xd41d8cd98f00b204e9800998ecf8427e);
    assert_eq!(md5_to_hex(md5), "d41d8cd98f00b204e9800998ecf8427e");
}

#[test]
fn md5_of_text() {
    let md5 = to_md5(b"hello").unwrap();
    assert_eq!(md5_to_hex(md5), "5d41402abc4b2a76b9719d911017c592");
}

#[test]
fn md5_hex_pads_with_zeros() {
    assert_eq!(md5_to_hex(0), "00000000000000000000000000000000");
    assert_eq!(md5_to_hex(0xab), "000000000000000000000000000000ab");
    assert_eq!(md5_to_hex(u128::MAX), "ffffffffffffffffffffffffffffffff");
}

#[test]
fn md5_hex_roundtrip() {
    for x in [0u128, 1, 0xd41d8cd98f00b204e9800998ecf8427e, u128::MAX] {
        let hex = md5_to_hex(x);
        assert!(is_md5_hex_str(&hex));
        assert_eq!(hex_to_md5(&hex), x);
    }
    assert_eq!(hex_to_md5("D41D8CD98F00B204E9800998ECF8427E"), 0xd41d8cd98f00b204e9800998ecf8427e);
}

#[test]
fn md5_hex_rejects_bad_text() {
    assert!(!is_md5_hex_str("abc"));
    assert!(!is_md5_hex_str("g41d8cd98f00b204e9800998ecf8427e"));
    assert!(!is_md5_hex_str("d41d8cd98f00b204e9800998ecf8427e0"));
}
