//! Digests, hex and base64 spellings, and the ciphers of the handshake.
use vstd::prelude::*;
use vstd::utf8::*;
use vstd::arithmetic::div_mod::lemma_mod_breakdown;
use openssl::pkey::Public;
use openssl::rsa::Rsa;
use base64::prelude::{Engine, BASE64_STANDARD};

verus! {

/// An MD5 digest read as a big-endian 128-bit number.
pub type MD5 = u128;

// ------------------------------------------------------------------------
// Outside functions: names for their results, and the calls themselves.
// ------------------------------------------------------------------------

/// The MD5 digest of `data`.
pub uninterp spec fn md5_digest(data: Seq<u8>) -> Seq<u8>;

/// The character of a 6-bit value in the standard base64 alphabet.
pub open spec fn base64_char(v: int) -> char {
    if v < 26 {
        (65 + v) as char
    } else if v < 52 {
        (97 + v - 26) as char
    } else if v < 62 {
        (48 + v - 52) as char
    } else if v == 62 {
        '+'
    } else {
        '/'
    }
}

/// The standard-alphabet, padded base64 spelling of `data`: each group of
/// three bytes becomes four characters of six bits each, and a last group
/// of one or two bytes is padded with `=`.
pub open spec fn base64_encoding(data: Seq<u8>) -> Seq<char>
    decreases data.len(),
{
    if data.len() == 0 {
        seq![]
    } else if data.len() == 1 {
        let a = data[0] as int;
        seq![base64_char(a / 4), base64_char((a % 4) * 16), '=', '=']
    } else if data.len() == 2 {
        let a = data[0] as int;
        let b = data[1] as int;
        seq![base64_char(a / 4), base64_char((a % 4) * 16 + b / 16), base64_char((b % 16) * 4), '=']
    } else {
        let a = data[0] as int;
        let b = data[1] as int;
        let c = data[2] as int;
        seq![
            base64_char(a / 4),
            base64_char((a % 4) * 16 + b / 16),
            base64_char((b % 16) * 4 + c / 64),
            base64_char(c % 64),
        ] + base64_encoding(data.skip(3))
    }
}

/// What standard-alphabet base64 decoding makes of `text`; `None` where the
/// text is not valid base64.
pub uninterp spec fn base64_decoding(text: Seq<u8>) -> Option<Seq<u8>>;

/// AES-128 in ECB mode with PKCS#7 padding, encrypting `data` under the
/// 16-byte `key`.
pub uninterp spec fn aes_ecb_encryption(key: Seq<u8>, data: Seq<u8>) -> Seq<u8>;

/// AES-128 in ECB mode with PKCS#7 padding, decrypting `data` under the
/// 16-byte `key`; `None` where OpenSSL refuses it (a length that is not a
/// whole number of blocks, or bad padding).
pub uninterp spec fn aes_ecb_decryption(key: Seq<u8>, data: Seq<u8>) -> Option<Seq<u8>>;

/// Calls `openssl::hash::hash` with `MessageDigest::md5()`. Claims that a
/// digest, when OpenSSL gives one, is the 16-byte MD5 digest of `data`;
/// whether OpenSSL gives one (it may not, e.g. where MD5 is disabled) is
/// left unsaid.
#[verifier::external_body]
fn openssl_md5(data: &[u8]) -> (r: Option<Vec<u8>>)
    ensures
        r matches Some(d) ==> d@ == md5_digest(data@) && d@.len() == 16,
{
    match openssl::hash::hash(openssl::hash::MessageDigest::md5(), data) {
        Ok(d) => Some(d.to_vec()),
        Err(_) => None,
    }
}

/// Calls `Engine::encode` of `base64::prelude::BASE64_STANDARD`. Claims the
/// result is the standard padded spelling, is ASCII, and decodes back to
/// `data`.
#[verifier::external_body]
pub(crate) fn base64_encode(data: &[u8]) -> (r: String)
    ensures
        r@ == base64_encoding(data@),
        is_ascii_chars(r@),
        base64_decoding(encode_utf8(r@)) == Some(data@),
{
    BASE64_STANDARD.encode(data)
}

/// Calls `Engine::decode` of `base64::prelude::BASE64_STANDARD`. Claims the
/// result is the named decoding of `text`.
#[verifier::external_body]
pub(crate) fn base64_decode(text: &[u8]) -> (r: Option<Vec<u8>>)
    ensures
        r is Some <==> base64_decoding(text@) is Some,
        r matches Some(v) ==> v@ == base64_decoding(text@)->Some_0,
{
    match BASE64_STANDARD.decode(text) {
        Ok(v) => Some(v),
        Err(_) => None,
    }
}

/// The most bytes that OpenSSL's cipher calls take in one go: the input
/// length must fit in a C `int`.
pub const MAX_CIPHER_INPUT: usize = 2147483647;

/// Calls `openssl::symm::encrypt` with `Cipher::aes_128_ecb()` and no IV.
/// A key of other than 16 bytes and an input longer than a C `int` are
/// left out: `encrypt` asserts on a short key and panics on such an input.
/// Claims that encryption under a 16-byte key succeeds (with padding on,
/// `EVP_EncryptUpdate` and `EVP_EncryptFinal_ex` take any length), that
/// the result is the named encryption, and that decrypting it under the
/// same key (`openssl::symm::decrypt`, which removes the PKCS#7 padding
/// that `encrypt` adds) gives the data back. The result is at most a block
/// longer than the data: `encrypt` writes into a buffer of that size.
#[verifier::external_body]
fn aes_ecb_encrypt(key: &[u8], data: &[u8]) -> (r: Option<Vec<u8>>)
    requires
        key@.len() == 16,
        data@.len() <= MAX_CIPHER_INPUT,
    ensures
        r is Some,
        r matches Some(v) ==> v@ == aes_ecb_encryption(key@, data@),
        r matches Some(v) ==> v@.len() <= data@.len() + 16,
        r matches Some(v) ==> aes_ecb_decryption(key@, v@) == Some(data@),
{
    match openssl::symm::encrypt(openssl::symm::Cipher::aes_128_ecb(), key, None, data) {
        Ok(v) => Some(v),
        Err(_) => None,
    }
}

/// Calls `openssl::symm::decrypt` with `Cipher::aes_128_ecb()` and no IV.
/// A key of other than 16 bytes and an input longer than a C `int` are
/// left out, as for encryption. Claims the result is the named decryption.
#[verifier::external_body]
fn aes_ecb_decrypt(key: &[u8], data: &[u8]) -> (r: Option<Vec<u8>>)
    requires
        key@.len() == 16,
        data@.len() <= MAX_CIPHER_INPUT,
    ensures
        r is Some <==> aes_ecb_decryption(key@, data@) is Some,
        r matches Some(v) ==> v@ == aes_ecb_decryption(key@, data@)->Some_0,
{
    match openssl::symm::decrypt(openssl::symm::Cipher::aes_128_ecb(), key, None, data) {
        Ok(v) => Some(v),
        Err(_) => None,
    }
}

/// An RSA key of OpenSSL.
#[verifier::external_type_specification]
#[verifier::external_body]
#[verifier::reject_recursive_types(T)]
pub struct ExRsa<T>(Rsa<T>);

/// The marker of a public key in OpenSSL.
#[verifier::external_type_specification]
#[verifier::external_body]
pub struct ExPublic(Public);

/// Whether OpenSSL reads an RSA public key from the PEM text `pem`.
pub uninterp spec fn rsa_public_pem_readable(pem: Seq<u8>) -> bool;

/// Whether `c` is an RSA-OAEP encryption of `data` under the public key
/// that the PEM text `pem` holds. OAEP padding is random, so many `c` are.
pub uninterp spec fn rsa_oaep_encryption(pem: Seq<u8>, data: Seq<u8>, c: Seq<u8>) -> bool;

/// A public key read from PEM text, together with that text.
struct PemPublicKey {
    pem: Vec<u8>,
    key: Rsa<Public>,
}

/// Calls `Rsa::public_key_from_pem` and keeps the text beside the key. A
/// text longer than a C `int` is left out: the memory BIO it is read
/// through asserts on that. Claims a key is read exactly where the text is
/// readable.
#[verifier::external_body]
fn rsa_public_key_from_pem(pem: &[u8]) -> (r: Option<PemPublicKey>)
    requires
        pem@.len() <= MAX_CIPHER_INPUT,
    ensures
        r is Some <==> rsa_public_pem_readable(pem@),
        r matches Some(k) ==> k.pem@ == pem@,
{
    match Rsa::public_key_from_pem(pem) {
        Ok(key) => Some(PemPublicKey { pem: pem.to_vec(), key }),
        Err(_) => None,
    }
}

/// Calls `Rsa::public_encrypt` with `Padding::PKCS1_OAEP` into a buffer of
/// `Rsa::size` bytes, cut to the length written. An input longer than a C
/// `int` is left out: `public_encrypt` asserts on that. Claims that the
/// bytes are an RSA-OAEP encryption of `data` under the key's PEM text,
/// and that OpenSSL gives one exactly where such an encryption exists
/// (where the data is short enough for the key).
#[verifier::external_body]
fn rsa_oaep_encrypt(key: &PemPublicKey, data: &[u8]) -> (r: Option<Vec<u8>>)
    requires
        data@.len() <= MAX_CIPHER_INPUT,
    ensures
        r is Some <==> exists|c: Seq<u8>| rsa_oaep_encryption(key.pem@, data@, c),
        r matches Some(v) ==> rsa_oaep_encryption(key.pem@, data@, v@),
{
    let mut out = vec![0u8; key.key.size() as usize];
    match key.key.public_encrypt(data, &mut out, openssl::rsa::Padding::PKCS1_OAEP) {
        Ok(n) => {
            out.truncate(n);
            Some(out)
        },
        Err(_) => None,
    }
}

/// Calls `rand::fill` on 16 bytes. Claims only that there are 16 of them.
#[verifier::external_body]
fn random_16_bytes() -> (r: Vec<u8>)
    ensures
        r@.len() == 16,
{
    let mut buf = [0u8; 16];
    rand::fill(&mut buf);
    buf.to_vec()
}

/// Calls `String::from_utf8`. As its documentation says, the bytes become a
/// string exactly when they are valid UTF-8, and the string spells them.
#[verifier::external_body]
fn string_from_utf8(bytes: Vec<u8>) -> (r: Option<String>)
    ensures
        r is Some <==> valid_utf8(bytes@),
        r matches Some(s) ==> encode_utf8(s@) == bytes@,
{
    match String::from_utf8(bytes) {
        Ok(s) => Some(s),
        Err(_) => None,
    }
}

// ------------------------------------------------------------------------
// Digests as numbers, and their hex spelling.
// ------------------------------------------------------------------------

/// The number that `b` spells in base 256, most significant byte first.
pub open spec fn be_value(b: Seq<u8>) -> nat
    decreases b.len(),
{
    if b.len() == 0 {
        0
    } else {
        be_value(b.drop_last()) * 256 + b.last() as nat
    }
}

/// `base` to the `n`-th power.
pub open spec fn power(base: nat, n: nat) -> nat
    decreases n,
{
    if n == 0 {
        1
    } else {
        base * power(base, (n - 1) as nat)
    }
}

/// The lowercase hex digit of `d` (`0 <= d < 16`).
pub open spec fn lower_hex_char(d: nat) -> char {
    if d < 10 {
        crate::text::digit_char(d)
    } else if d == 10 {
        'a'
    } else if d == 11 {
        'b'
    } else if d == 12 {
        'c'
    } else if d == 13 {
        'd'
    } else if d == 14 {
        'e'
    } else {
        'f'
    }
}

/// The last `n` hex digits of `x`, most significant first, zero-padded.
pub open spec fn hex_digits(x: nat, n: nat) -> Seq<char>
    decreases n,
{
    if n == 0 {
        seq![]
    } else {
        hex_digits(x / 16, (n - 1) as nat).push(lower_hex_char(x % 16))
    }
}

/// `format!("{:032x}", x)`: 32 lowercase hex digits.
pub open spec fn md5_hex(x: u128) -> Seq<char> {
    hex_digits(x as nat, 32)
}

/// The value of a hex digit in either case.
pub open spec fn hex_char_value(c: char) -> Option<nat> {
    if '0' <= c <= '9' {
        Some((c as u32 - 48) as nat)
    } else if 'a' <= c <= 'f' {
        Some((c as u32 - 87) as nat)
    } else if 'A' <= c <= 'F' {
        Some((c as u32 - 55) as nat)
    } else {
        None
    }
}

/// What `u8::from_str_radix` gives for the two characters `a b` in base 16:
/// two hex digits, or `+` and one hex digit.
pub open spec fn hex_pair_value(a: char, b: char) -> Option<u8> {
    if a == '+' {
        match hex_char_value(b) {
            Some(v) => Some(v as u8),
            None => None,
        }
    } else {
        match (hex_char_value(a), hex_char_value(b)) {
            (Some(x), Some(y)) => Some((x * 16 + y) as u8),
            _ => None,
        }
    }
}

/// Whether `s` is what `hex_to_md5` reads: 32 characters that form 16
/// readable pairs.
pub open spec fn is_md5_hex(s: Seq<char>) -> bool {
    &&& s.len() == 32
    &&& forall|i: int| 0 <= i < 16 ==> (#[trigger] hex_pair_value(s[2 * i], s[2 * i + 1])) is Some
}

/// The first `k` bytes that the pairs of `s` spell.
pub open spec fn hex_pair_bytes(s: Seq<char>, k: nat) -> Seq<u8> {
    Seq::new(k, |i: int| hex_pair_value(s[2 * i], s[2 * i + 1])->Some_0)
}

/// The digest that a hex spelling stands for.
pub open spec fn md5_of_hex(s: Seq<char>) -> nat {
    be_value(hex_pair_bytes(s, 16))
}

/// The value of a run of hex digits, most significant first.
pub open spec fn hex_value(s: Seq<char>) -> nat
    decreases s.len(),
{
    if s.len() == 0 {
        0
    } else {
        hex_value(s.drop_last()) * 16 + hex_char_value(s.last())->Some_0
    }
}

proof fn lemma_lower_hex_char(d: nat)
    requires
        d < 16,
    ensures
        hex_char_value(lower_hex_char(d)) == Some(d),
        lower_hex_char(d) != '+',
{
}

proof fn lemma_hex_digits_value(x: nat, n: nat)
    ensures
        hex_digits(x, n).len() == n,
        hex_value(hex_digits(x, n)) == x % power(16, n),
        forall|i: int| 0 <= i < n ==> (#[trigger] hex_char_value(hex_digits(x, n)[i])) is Some,
        forall|i: int| 0 <= i < n ==> hex_digits(x, n)[i] != '+',
    decreases n,
{
    if n == 0 {
    } else {
        let m = (n - 1) as nat;
        lemma_hex_digits_value(x / 16, m);
        lemma_lower_hex_char(x % 16);
        let s = hex_digits(x, n);
        assert(s.drop_last() =~= hex_digits(x / 16, m));
        assert(power(16, m) > 0) by {
            lemma_power_positive(16, m);
        }
        lemma_mod_breakdown(x as int, 16, power(16, m) as int);
        assert forall|i: int| 0 <= i < n implies (#[trigger] hex_char_value(s[i])) is Some by {
            if i < m {
                assert(s[i] == hex_digits(x / 16, m)[i]);
            }
        }
        assert forall|i: int| 0 <= i < n implies s[i] != '+' by {
            if i < m {
                assert(s[i] == hex_digits(x / 16, m)[i]);
            }
        }
    }
}

proof fn lemma_power_positive(base: nat, n: nat)
    requires
        base > 0,
    ensures
        power(base, n) > 0,
    decreases n,
{
    if n > 0 {
        lemma_power_positive(base, (n - 1) as nat);
        assert(base * power(base, (n - 1) as nat) > 0) by (nonlinear_arith)
            requires
                base > 0,
                power(base, (n - 1) as nat) > 0,
        ;
    }
}

proof fn lemma_pair_bytes_value(s: Seq<char>, k: nat)
    requires
        2 * k <= s.len(),
        forall|i: int| 0 <= i < s.len() ==> (#[trigger] hex_char_value(s[i])) is Some,
        forall|i: int| 0 <= i < s.len() ==> s[i] != '+',
    ensures
        be_value(hex_pair_bytes(s, k)) == hex_value(s.take(2 * k as int)),
    decreases k,
{
    if k > 0 {
        let j = (k - 1) as nat;
        lemma_pair_bytes_value(s, j);
        let b = hex_pair_bytes(s, k);
        assert(b.drop_last() =~= hex_pair_bytes(s, j));
        let t = s.take(2 * k as int);
        assert(t.drop_last() =~= s.take(2 * k - 1));
        assert(t.drop_last().drop_last() =~= s.take(2 * j as int));
        let x = hex_char_value(s[2 * j as int])->Some_0;
        let y = hex_char_value(s[2 * j as int + 1])->Some_0;
        assert(hex_char_value(s[2 * j as int]) is Some);
        assert(hex_char_value(s[2 * j as int + 1]) is Some);
        assert(x < 16 && y < 16);
        assert(b.last() == x * 16 + y);
        assert(t.last() == s[2 * j as int + 1]);
        assert(t.drop_last().last() == s[2 * j as int]);
        assert(hex_value(t) == hex_value(t.drop_last()) * 16 + y);
        assert(hex_value(t.drop_last()) == hex_value(t.drop_last().drop_last()) * 16 + x);
        assert(be_value(b) == be_value(b.drop_last()) * 256 + b.last() as nat);
    }
}

/// Law: reading back the hex spelling of a digest gives the digest.
pub proof fn lemma_md5_hex_roundtrip(x: u128)
    ensures
        is_md5_hex(md5_hex(x)),
        md5_of_hex(md5_hex(x)) == x,
{
    let s = md5_hex(x);
    lemma_hex_digits_value(x as nat, 32);
    assert forall|i: int| 0 <= i < 16 implies (#[trigger] hex_pair_value(s[2 * i], s[2 * i + 1])) is Some by {
        assert(hex_char_value(s[2 * i]) is Some);
        assert(hex_char_value(s[2 * i + 1]) is Some);
    }
    lemma_pair_bytes_value(s, 16);
    assert(s.take(32) =~= s);
    assert(power(16, 32) == 0x1_0000_0000_0000_0000_0000_0000_0000_0000) by {
        reveal_with_fuel(power, 33);
    }
}

/// The MD5 digest of `data` as a number; `None` where OpenSSL gives no
/// digest.
pub fn to_md5(data: &[u8]) -> (r: Option<MD5>)
    ensures
        r matches Some(v) ==> v == be_value(md5_digest(data@)),
{
    let digest = openssl_md5(data)?;
    Some(be_number(&digest))
}

/// Reads 16 bytes as a big-endian number; `u128::from_be_bytes`.
fn be_number(b: &Vec<u8>) -> (r: u128)
    requires
        b@.len() == 16,
    ensures
        r == be_value(b@),
{
    let mut acc: u128 = 0;
    let mut i: usize = 0;
    while i < 16
        invariant
            i <= 16,
            b@.len() == 16,
            acc == be_value(b@.take(i as int)),
            acc < power(256, i as nat),
        decreases 16 - i,
    {
        proof {
            assert(b@.take(i + 1).drop_last() =~= b@.take(i as int));
            assert(power(256, (i + 1) as nat) == 256 * power(256, i as nat));
            assert(power(256, 16) == 0x1_0000_0000_0000_0000_0000_0000_0000_0000) by {
                reveal_with_fuel(power, 17);
            }
            lemma_power_increases(256, (i + 1) as nat, 16);
            let p = power(256, i as nat);
            assert(acc * 256 + b@[i as int] < p * 256) by (nonlinear_arith)
                requires
                    acc < p,
                    b@[i as int] < 256,
            ;
        }
        acc = acc * 256 + b[i] as u128;
        i = i + 1;
    }
    assert(b@.take(16) =~= b@);
    acc
}

proof fn lemma_power_increases(base: nat, a: nat, b: nat)
    requires
        base > 0,
        a <= b,
    ensures
        power(base, a) <= power(base, b),
    decreases b,
{
    if a < b {
        lemma_power_increases(base, a, (b - 1) as nat);
        lemma_power_positive(base, (b - 1) as nat);
        assert(power(base, (b - 1) as nat) <= base * power(base, (b - 1) as nat)) by (nonlinear_arith)
            requires
                base > 0,
                power(base, (b - 1) as nat) > 0,
        ;
    }
}

/// The value of a hex digit, read from a character that is one.
fn hex_char_to_value(c: char) -> (r: Option<u8>)
    ensures
        r matches Some(v) ==> hex_char_value(c) == Some(v as nat),
        r is None <==> hex_char_value(c) is None,
{
    if '0' <= c && c <= '9' {
        Some((c as u32 - 48) as u8)
    } else if 'a' <= c && c <= 'f' {
        Some((c as u32 - 87) as u8)
    } else if 'A' <= c && c <= 'F' {
        Some((c as u32 - 55) as u8)
    } else {
        None
    }
}

/// The byte that a pair of characters spells in base 16.
fn pair_to_byte(a: char, b: char) -> (r: Option<u8>)
    ensures
        r == hex_pair_value(a, b),
{
    if a == '+' {
        hex_char_to_value(b)
    } else {
        match (hex_char_to_value(a), hex_char_to_value(b)) {
            (Some(x), Some(y)) => Some(x * 16 + y),
            _ => None,
        }
    }
}

/// Whether `s` is a hex spelling that `hex_to_md5` reads.
pub fn is_md5_hex_str(s: &str) -> (r: bool)
    ensures
        r == is_md5_hex(s@),
{
    if s.unicode_len() != 32 {
        return false;
    }
    let mut i: usize = 0;
    while i < 16
        invariant
            i <= 16,
            s@.len() == 32,
            forall|k: int| 0 <= k < i ==> (#[trigger] hex_pair_value(s@[2 * k], s@[2 * k + 1])) is Some,
        decreases 16 - i,
    {
        if pair_to_byte(s.get_char(2 * i), s.get_char(2 * i + 1)).is_none() {
            return false;
        }
        i = i + 1;
    }
    true
}

/// Reads a 32-digit hex spelling as a digest, pair by pair.
pub fn hex_to_md5(hex_str: &str) -> (r: MD5)
    requires
        is_md5_hex(hex_str@),
    ensures
        r == md5_of_hex(hex_str@),
{
    let ghost bytes = hex_pair_bytes(hex_str@, 16);
    let mut acc: u128 = 0;
    let mut i: usize = 0;
    while i < 16
        invariant
            i <= 16,
            is_md5_hex(hex_str@),
            bytes == hex_pair_bytes(hex_str@, 16),
            acc == be_value(bytes.take(i as int)),
            acc < power(256, i as nat),
        decreases 16 - i,
    {
        let pair = pair_to_byte(hex_str.get_char(2 * i), hex_str.get_char(2 * i + 1));
        assert(hex_pair_value(hex_str@[2 * i], hex_str@[2 * i + 1]) is Some);
        let byte = match pair {
            Some(v) => v,
            None => 0,
        };
        proof {
            assert(bytes[i as int] == byte);
            assert(bytes.take(i + 1).drop_last() =~= bytes.take(i as int));
            assert(power(256, (i + 1) as nat) == 256 * power(256, i as nat));
            assert(power(256, 16) == 0x1_0000_0000_0000_0000_0000_0000_0000_0000) by {
                reveal_with_fuel(power, 17);
            }
            lemma_power_increases(256, (i + 1) as nat, 16);
            let p = power(256, i as nat);
            assert(acc * 256 + byte < p * 256) by (nonlinear_arith)
                requires
                    acc < p,
                    byte < 256,
            ;
        }
        acc = acc * 256 + byte as u128;
        i = i + 1;
    }
    assert(bytes.take(16) =~= bytes);
    acc
}

/// The lowercase hex digit of `d`.
fn hex_digit_char(d: u8) -> (c: char)
    requires
        d < 16,
    ensures
        c == lower_hex_char(d as nat),
{
    if d < 10 {
        crate::text::digit_to_char(d)
    } else if d == 10 {
        'a'
    } else if d == 11 {
        'b'
    } else if d == 12 {
        'c'
    } else if d == 13 {
        'd'
    } else if d == 14 {
        'e'
    } else {
        'f'
    }
}

/// Spells a digest as 32 lowercase hex digits, most significant first.
pub fn md5_to_hex(data: MD5) -> (r: String)
    ensures
        r@ == md5_hex(data),
        r@.len() == 32,
{
    let mut digits: Vec<char> = Vec::new();
    let mut rest: u128 = data;
    let mut k: usize = 0;
    while k < 32
        invariant
            k <= 32,
            digits@.len() == k,
            md5_hex(data) == hex_digits(rest as nat, (32 - k) as nat) + digits@.reverse(),
        decreases 32 - k,
    {
        let c = hex_digit_char((rest % 16) as u8);
        proof {
            let m = (32 - k - 1) as nat;
            assert(hex_digits(rest as nat, (32 - k) as nat) == hex_digits(
                (rest / 16) as nat,
                m,
            ).push(c));
            assert(digits@.push(c).reverse() =~= seq![c] + digits@.reverse());
            assert(hex_digits((rest / 16) as nat, m) + seq![c] + digits@.reverse() =~= hex_digits(
                (rest / 16) as nat,
                m,
            ) + digits@.push(c).reverse());
        }
        digits.push(c);
        rest = rest / 16;
        k = k + 1;
    }
    assert(hex_digits(rest as nat, 0) =~= seq![]);
    assert(md5_hex(data) =~= digits@.reverse());
    let mut out = String::new();
    let mut j = digits.len();
    while j > 0
        invariant
            j <= digits@.len(),
            digits@.len() == 32,
            md5_hex(data) == digits@.reverse(),
            out@ == digits@.reverse().take((32 - j) as int),
        decreases j,
    {
        j = j - 1;
        let ch = digits[j];
        crate::text::push_char(&mut out, ch);
        proof {
            let rv = digits@.reverse();
            assert(rv[(31 - j) as int] == ch);
            assert(rv.take((32 - j) as int) =~= rv.take((31 - j) as int).push(ch));
        }
    }
    assert(digits@.reverse().take(32) =~= digits@.reverse());
    out
}

// ------------------------------------------------------------------------
// Random identifiers and the handshake ciphers.
// ------------------------------------------------------------------------

/// Sixteen random bytes, spelled in base64.
pub fn rand_16bytes_as_base64() -> (r: String)
    ensures
        exists|b: Seq<u8>| b.len() == 16 && r@ == base64_encoding(b),
{
    let bytes = random_16_bytes();
    let r = base64_encode(bytes.as_slice());
    assert(bytes@.len() == 16 && r@ == base64_encoding(bytes@));
    r
}

/// What `aes_encrypt_with_base64` gives: the key decoded from base64, the
/// text's bytes encrypted under it, the cipher text spelled in base64.
/// `None` where the key is not base64 of 16 bytes, or the text is longer
/// than a cipher call takes.
pub open spec fn aes_encrypt_base64_spec(data: Seq<char>, key: Seq<char>) -> Option<Seq<char>> {
    match base64_decoding(encode_utf8(key)) {
        Some(k) => if k.len() == 16 && encode_utf8(data).len() <= MAX_CIPHER_INPUT {
            Some(base64_encoding(aes_ecb_encryption(k, encode_utf8(data))))
        } else {
            None
        },
        None => None,
    }
}

/// What `aes_decrypt_with_base64` gives: key and cipher text decoded from
/// base64, decrypted, and read as UTF-8.
/// `None` where the key is not base64 of 16 bytes, or a step fails.
pub open spec fn aes_decrypt_base64_spec(text: Seq<char>, key: Seq<char>) -> Option<Seq<char>> {
    match base64_decoding(encode_utf8(key)) {
        Some(k) => match base64_decoding(encode_utf8(text)) {
            Some(c) => if k.len() != 16 || c.len() > MAX_CIPHER_INPUT {
                None
            } else {
                match aes_ecb_decryption(k, c) {
                Some(p) => if valid_utf8(p) {
                    Some(decode_utf8(p))
                } else {
                    None
                },
                None => None,
            }},
            None => None,
        },
        None => None,
    }
}

/// Encrypts `data` with AES-128-ECB under the base64 key `key` and spells
/// the result in base64; `None` where a step fails.
pub fn aes_encrypt_with_base64(data: &str, key: &str) -> (r: Option<String>)
    ensures
        r is Some <==> aes_encrypt_base64_spec(data@, key@) is Some,
        r matches Some(s) ==> s@ == aes_encrypt_base64_spec(data@, key@)->Some_0,
        encode_utf8(data@).len() + 16 <= MAX_CIPHER_INPUT ==> (r matches Some(s)
            ==> aes_decrypt_base64_spec(s@, key@) == Some(data@)),
{
    let key_bytes = base64_decode(key.as_bytes())?;
    if key_bytes.len() != 16 || data.as_bytes().len() > MAX_CIPHER_INPUT {
        return None;
    }
    let cipher = aes_ecb_encrypt(key_bytes.as_slice(), data.as_bytes())?;
    let s = base64_encode(cipher.as_slice());
    proof {
        encode_utf8_valid_utf8(data@);
        encode_utf8_decode_utf8(data@);
    }
    Some(s)
}

/// Decrypts the base64 text `text` with AES-128-ECB under the base64 key
/// `key`; `None` where a step fails or the plain text is not UTF-8.
pub fn aes_decrypt_with_base64(text: &str, key: &str) -> (r: Option<String>)
    ensures
        r is Some <==> aes_decrypt_base64_spec(text@, key@) is Some,
        r matches Some(s) ==> s@ == aes_decrypt_base64_spec(text@, key@)->Some_0,
{
    let key_bytes = base64_decode(key.as_bytes())?;
    let cipher_bytes = base64_decode(text.as_bytes())?;
    if key_bytes.len() != 16 || cipher_bytes.len() > MAX_CIPHER_INPUT {
        return None;
    }
    let plain = aes_ecb_decrypt(key_bytes.as_slice(), cipher_bytes.as_slice())?;
    let ghost p = plain@;
    let s = string_from_utf8(plain);
    match s {
        Some(s) => {
            proof {
                encode_utf8_decode_utf8(s@);
            }
            Some(s)
        },
        None => None,
    }
}

/// Whether `rsa_encrypt_with_base64` gives a result: both texts fit a
/// C `int`, OpenSSL reads the key, and the data is short enough for it.
pub open spec fn rsa_encrypt_succeeds(data: Seq<char>, public_key: Seq<char>) -> bool {
    &&& encode_utf8(data).len() <= MAX_CIPHER_INPUT
    &&& encode_utf8(public_key).len() <= MAX_CIPHER_INPUT
    &&& rsa_public_pem_readable(encode_utf8(public_key))
    &&& exists|c: Seq<u8>| rsa_oaep_encryption(encode_utf8(public_key), encode_utf8(data), c)
}

/// Encrypts `data` with RSA-OAEP under the PEM public key `public_key` and
/// spells the result in base64; `None` where a text is too long for
/// OpenSSL, or OpenSSL refuses the key or the data.
pub fn rsa_encrypt_with_base64(data: &str, public_key: &str) -> (r: Option<String>)
    ensures
        r is Some <==> rsa_encrypt_succeeds(data@, public_key@),
        r matches Some(s) ==> exists|c: Seq<u8>|
            s@ == base64_encoding(c) && rsa_oaep_encryption(
                encode_utf8(public_key@),
                encode_utf8(data@),
                c,
            ),
{
    if data.as_bytes().len() > MAX_CIPHER_INPUT || public_key.as_bytes().len() > MAX_CIPHER_INPUT {
        return None;
    }
    let key = rsa_public_key_from_pem(public_key.as_bytes())?;
    let encrypted = rsa_oaep_encrypt(&key, data.as_bytes())?;
    let s = base64_encode(encrypted.as_slice());
    assert(s@ == base64_encoding(encrypted@));
    Some(s)
}

} // verus!
