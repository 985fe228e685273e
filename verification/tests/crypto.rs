use base64::prelude::{Engine, BASE64_STANDARD};
use lx_music_sync::utils::crypto::{
    aes_decrypt_with_base64, aes_encrypt_with_base64, rand_16bytes_as_base64, rsa_encrypt_with_base64,
};
use lx_music_sync::utils::{gzip_base64, ungzip_base64};
use openssl::rsa::{Padding, Rsa};

fn test_key() -> String {
    BASE64_STANDARD.encode(b"0123456789abcdef")
}

#[test]
fn aes_roundtrip() {
    let key = test_key();
    let sealed = aes_encrypt_with_base64("Hello~::^-^::~v4~", &key).unwrap();
    assert_ne!(sealed, "Hello~::^-^::~v4~");
    assert_eq!(aes_decrypt_with_base64(&sealed, &key).unwrap(), "Hello~::^-^::~v4~");
}

#[test]
fn aes_known_ciphertext() {
    let key = test_key();
    let sealed = aes_encrypt_with_base64("abc", &key).unwrap();
    let cipher = openssl::symm::Cipher::aes_128_ecb();
    let expected = openssl::symm::encrypt(cipher, b"0123456789abcdef", None, b"abc").unwrap();
    assert_eq!(sealed, BASE64_STANDARD.encode(expected));
}

#[test]
fn aes_rejects_bad_input() {
    let key = test_key();
    assert_eq!(aes_decrypt_with_base64("not base64!", &key), None);
    assert_eq!(aes_encrypt_with_base64("abc", "not base64!"), None);
    let other = BASE64_STANDARD.encode(b"fedcba9876543210");
    let sealed = aes_encrypt_with_base64("lx-music auth::x", &key).unwrap();
    assert_ne!(aes_decrypt_with_base64(&sealed, &other), Some("lx-music auth::x".to_string()));
}

#[test]
fn random_bytes_are_sixteen() {
    let a = rand_16bytes_as_base64();
    let b = rand_16bytes_as_base64();
    assert_eq!(a.len(), 24);
    assert_eq!(BASE64_STANDARD.decode(&a).unwrap().len(), 16);
    assert_ne!(a, b);
}

#[test]
fn rsa_encrypts_for_the_key() {
    let private = Rsa::generate(2048).unwrap();
    let pem = String::from_utf8(private.public_key_to_pem().unwrap()).unwrap();
    let sealed = rsa_encrypt_with_base64("secret", &pem).unwrap();
    let bytes = BASE64_STANDARD.decode(sealed).unwrap();
    let mut plain = vec![0u8; private.size() as usize];
    let n = private.private_decrypt(&bytes, &mut plain, Padding::PKCS1_OAEP).unwrap();
    assert_eq!(&plain[..n], b"secret");
}

#[test]
fn rsa_rejects_bad_pem() {
    assert_eq!(rsa_encrypt_with_base64("secret", "no key here"), None);
}

#[test]
fn gzip_roundtrip() {
    let data = b"some text that is compressed and read back".to_vec();
    let packed = gzip_base64(&data);
    assert_ne!(packed.as_bytes(), data.as_slice());
    assert_eq!(ungzip_base64(packed.as_bytes()), Some(data));
}

#[test]
fn ungzip_rejects_bad_input() {
    assert_eq!(ungzip_base64(b"!!!"), None);
    let not_gzip = BASE64_STANDARD.encode(b"plain");
    assert_eq!(ungzip_base64(not_gzip.as_bytes()), None);
}
