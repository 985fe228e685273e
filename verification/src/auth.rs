//! The handshake of a device: first with the user's password, later with
//! the key the server gave the device.
use vstd::prelude::*;
use vstd::utf8::*;
use crate::data::user::DeviceInfo;
use crate::text::{lines, split_lines, string_views};
use crate::utils::crypto::{
    aes_decrypt_base64_spec, aes_decrypt_with_base64, aes_encrypt_base64_spec,
    aes_encrypt_with_base64, base64_encode, MAX_CIPHER_INPUT, base64_encoding, be_value, md5_digest, md5_hex,
    md5_to_hex, rsa_encrypt_with_base64, rsa_encrypt_succeeds, rsa_oaep_encryption, to_md5,
};

verus! {

/// What a decrypted handshake message starts with.
pub const AUTH_HEAD: &'static str = "lx-music auth::";

/// What the server answers a device that knows its key; also the greeting
/// of the health check.
pub const HELLO_TEXT: &'static str = "Hello~::^-^::~v4~";

/// Why a handshake failed.
#[derive(Debug, Clone, Copy, PartialEq, Eq, Structural)]
pub enum AuthError {
    /// No user or device matches the message.
    NoSuchUser,
    /// The message decrypted, but not to a handshake.
    IncorrectFormat,
    /// No MD5 digest could be made of a password.
    DigestFailed,
    /// The message could not be decrypted (bad base64, bad key, bad
    /// padding, or not UTF-8).
    DecryptFailed,
    /// The answer could not be encrypted.
    EncryptFailed,
}

/// The handshake of a known device went through: its name as the message
/// gave it, and the encrypted greeting to send back.
pub struct KeyAuthGrant {
    pub device_name: String,
    pub reply: String,
}

/// The handshake with a password went through: the user it matched, the
/// new device, and the encrypted credentials to send back.
pub struct CodeAuthGrant {
    pub username: String,
    pub device: DeviceInfo,
    pub reply: String,
}

/// Whether a text starts with the handshake head.
pub open spec fn starts_with_head(text: Seq<char>) -> bool {
    AUTH_HEAD@.len() <= text.len() && text.take(AUTH_HEAD@.len() as int) == AUTH_HEAD@
}

/// Whether `s` starts with `prefix`.
fn starts_with(s: &str, prefix: &str) -> (r: bool)
    ensures
        r == (prefix@.len() <= s@.len() && s@.take(prefix@.len() as int) == prefix@),
{
    let n = prefix.unicode_len();
    if s.unicode_len() < n {
        return false;
    }
    let mut i: usize = 0;
    while i < n
        invariant
            i <= n,
            n == prefix@.len(),
            n <= s@.len(),
            forall|k: int| 0 <= k < i ==> s@[k] == prefix@[k],
        decreases n - i,
    {
        if s.get_char(i) != prefix.get_char(i) {
            assert(s@.take(n as int)[i as int] != prefix@[i as int]);
            return false;
        }
        i = i + 1;
    }
    assert(s@.take(n as int) =~= prefix@);
    true
}

/// Lemma: the greeting is short ASCII text, well within what a cipher call
/// takes.
proof fn lemma_hello_fits()
    ensures
        encode_utf8(HELLO_TEXT@).len() + 16 <= MAX_CIPHER_INPUT,
{
    reveal_strlit("Hello~::^-^::~v4~");
    assert(is_ascii_chars(HELLO_TEXT@));
    is_ascii_chars_encode_utf8(HELLO_TEXT@);
}

/// Checks a handshake message from a known device. `device_key` is the key
/// the server gave the device, `None` where the client id is unknown. The
/// message must decrypt under the key to the head and the device's name;
/// the answer is the greeting encrypted under the key.
pub fn auth_by_key(encrypt_msg: &str, device_key: Option<&String>) -> (r: Result<KeyAuthGrant, AuthError>)
    ensures
        device_key is None <==> r == Err::<KeyAuthGrant, AuthError>(AuthError::NoSuchUser),
        device_key matches Some(key) ==> {
            let text = aes_decrypt_base64_spec(encrypt_msg@, key@);
            &&& (r == Err::<KeyAuthGrant, AuthError>(AuthError::DecryptFailed) <==> text is None)
            &&& (r == Err::<KeyAuthGrant, AuthError>(AuthError::IncorrectFormat) <==> text is Some
                && !starts_with_head(text->Some_0))
            &&& (r is Ok <==> text is Some && starts_with_head(text->Some_0))
            &&& (r matches Ok(g) ==> g.device_name@
                == text->Some_0.skip(AUTH_HEAD@.len() as int) && g.reply@ == aes_encrypt_base64_spec(
                HELLO_TEXT@,
                key@,
            )->Some_0)
        },
        !(r is Err && r->Err_0 == AuthError::DigestFailed),
        !(r is Err && r->Err_0 == AuthError::EncryptFailed),
{
    let key = match device_key {
        Some(k) => k,
        None => return Err(AuthError::NoSuchUser),
    };
    let text = match aes_decrypt_with_base64(encrypt_msg, key.as_str()) {
        Some(t) => t,
        None => return Err(AuthError::DecryptFailed),
    };
    if !starts_with(text.as_str(), AUTH_HEAD) {
        return Err(AuthError::IncorrectFormat);
    }
    let head_len = AUTH_HEAD.unicode_len();
    let len = text.as_str().unicode_len();
    let device_name = String::from_str(text.as_str().substring_char(head_len, len));
    assert(text@.subrange(head_len as int, len as int) =~= text@.skip(head_len as int));
    proof {
        lemma_hello_fits();
    }
    match aes_encrypt_with_base64(HELLO_TEXT, key.as_str()) {
        Some(reply) => Ok(KeyAuthGrant { device_name, reply }),
        None => Err(AuthError::EncryptFailed),
    }
}

/// The AES key of a password: the first 16 hex digits of its MD5 digest,
/// as bytes, in base64.
pub open spec fn password_key(password: Seq<char>) -> Seq<char> {
    base64_encoding(
        encode_utf8(md5_hex(be_value(md5_digest(encode_utf8(password))) as u128).take(16)),
    )
}

/// The text that a message decrypts to under a user's password.
pub open spec fn code_text(msg: Seq<char>, password: Seq<char>) -> Option<Seq<char>> {
    aes_decrypt_base64_spec(msg, password_key(password))
}

/// The message does not decrypt to a handshake under the password: it
/// does not decrypt, or its text does not start with the head.
pub open spec fn code_rejected(msg: Seq<char>, password: Seq<char>) -> bool {
    code_text(msg, password) is None || !starts_with_head(code_text(msg, password)->Some_0)
}

/// The `n`-th line, or `default` where there are not that many.
pub open spec fn nth_line_or(ls: Seq<Seq<char>>, n: int, default: Seq<char>) -> Seq<char> {
    if n < ls.len() {
        ls[n]
    } else {
        default
    }
}

/// The users before the `k`-th reject the message.
pub open spec fn earlier_rejected(msg: Seq<char>, users: Seq<(String, String)>, k: int) -> bool {
    forall|j: int| 0 <= j < k ==> code_rejected(msg, (#[trigger] users[j]).1@)
}

/// The `k`-th user is the first whose password decrypts the message to a
/// handshake.
pub open spec fn matched_user(msg: Seq<char>, users: Seq<(String, String)>, k: int) -> bool {
    &&& 0 <= k < users.len()
    &&& earlier_rejected(msg, users, k)
    &&& !code_rejected(msg, users[k].1@)
}

/// The PEM text of a public key whose base64 body is `body`, on one line.
pub open spec fn pem_text(body: Seq<char>) -> Seq<char> {
    "-----BEGIN PUBLIC KEY-----\n"@ + body + "\n-----END PUBLIC KEY-----"@
}

/// The credentials a new device gets, as JSON.
pub open spec fn grant_json(client_id: Seq<char>, key: Seq<char>, server_name: Seq<char>) -> Seq<char> {
    "{\"clientId\":\""@ + client_id + "\",\"key\":\""@ + key + "\",\"serverName\":\""@
        + server_name + "\"}"@
}

/// What a grant holds for the user `user` whose key decrypted the message
/// to `text`: the user's name; a device named by line 2 (`Unknown` where
/// there is none) that is a phone where line 3 says `lx_music_mobile`; and,
/// in base64, an RSA-OAEP encryption of the device's credentials under the
/// public key whose body is line 1.
pub open spec fn grant_fits(g: CodeAuthGrant, user: (String, String), text: Seq<char>, server_name: Seq<char>) -> bool {
    &&& g.username@ == user.0@
    &&& g.device.device_name@ == nth_line_or(lines(text), 2, "Unknown"@)
    &&& g.device.is_mobile == (3 < lines(text).len() && lines(text)[3] == "lx_music_mobile"@)
    &&& exists|c: Seq<u8>|
        g.reply@ == base64_encoding(c) && rsa_oaep_encryption(
            encode_utf8(pem_text(nth_line_or(lines(text), 1, seq![]))),
            encode_utf8(grant_json(g.device.client_id@, g.device.key@, server_name)),
            c,
        )
}

/// The keys fit the users: where a key is there, it is the AES key of that
/// user's password.
pub open spec fn keys_fit(users: Seq<(String, String)>, keys: Seq<Option<String>>) -> bool {
    &&& keys.len() == users.len()
    &&& forall|i: int|
        0 <= i < keys.len() ==> (#[trigger] keys[i] matches Some(k) ==> k@ == password_key(users[i].1@))
}

/// The keys of the users before the `k`-th and of the `k`-th are there.
pub open spec fn keys_known(keys: Seq<Option<String>>, k: int) -> bool {
    forall|j: int| 0 <= j <= k ==> (#[trigger] keys[j]) is Some
}

/// The AES key of a password; `None` where no digest could be made.
fn password_key_of(password: &String) -> (r: Option<String>)
    ensures
        r matches Some(k) ==> k@ == password_key(password@),
{
    let md5 = to_md5(password.as_str().as_bytes())?;
    let hex = md5_to_hex(md5);
    let head = hex.as_str().substring_char(0, 16);
    assert(hex@.subrange(0, 16) =~= hex@.take(16));
    Some(base64_encode(head.as_bytes()))
}

/// The `n`-th line, or `default` where there are not that many.
fn nth_line(ls: &Vec<String>, n: usize, default: &str) -> (r: String)
    ensures
        r@ == nth_line_or(string_views(ls@), n as int, default@),
{
    if n < ls.len() {
        ls[n].clone()
    } else {
        String::from_str(default)
    }
}

/// The AES keys of the users' passwords, in order; `None` for a password
/// of which no digest could be made.
pub fn password_keys(users: &Vec<(String, String)>) -> (r: Vec<Option<String>>)
    ensures
        keys_fit(users@, r@),
{
    let mut keys: Vec<Option<String>> = Vec::new();
    let mut i: usize = 0;
    while i < users.len()
        invariant
            i <= users@.len(),
            keys@.len() == i,
            forall|j: int|
                0 <= j < i ==> (#[trigger] keys@[j] matches Some(k) ==> k@ == password_key(users@[j].1@)),
        decreases users@.len() - i,
    {
        keys.push(password_key_of(&users[i].1));
        i = i + 1;
    }
    keys
}

/// Finds the user a handshake message was made for, given the keys of the
/// users' passwords: the first user whose key decrypts the message to a
/// handshake, with that text. A user whose key does not decrypt the message
/// or gives another text is passed over; a user before the match whose key
/// is missing stops the search with `DigestFailed`; no match is
/// `NoSuchUser`.
pub fn find_code_user(encrypt_msg: &str, users: &Vec<(String, String)>, keys: &Vec<Option<String>>) -> (r: Result<(usize, String), AuthError>)
    requires
        keys_fit(users@, keys@),
    ensures
        r matches Ok((k, text)) ==> matched_user(encrypt_msg@, users@, k as int) && keys_known(keys@, k as int)
            && text@ == code_text(encrypt_msg@, users@[k as int].1@)->Some_0,
        r is Ok <==> exists|k: int| #[trigger] matched_user(encrypt_msg@, users@, k) && keys_known(keys@, k),
        r == Err::<(usize, String), AuthError>(AuthError::DigestFailed) <==> exists|k: int|
            0 <= k < users@.len() && earlier_rejected(encrypt_msg@, users@, k) && keys_known(keys@, k - 1)
                && #[trigger] keys@[k] is None,
        r == Err::<(usize, String), AuthError>(AuthError::NoSuchUser) <==> earlier_rejected(
            encrypt_msg@,
            users@,
            users@.len() as int,
        ) && keys_known(keys@, users@.len() - 1),
        r is Ok || r == Err::<(usize, String), AuthError>(AuthError::DigestFailed) || r == Err::<
            (usize, String),
            AuthError,
        >(AuthError::NoSuchUser),
{
    let mut i: usize = 0;
    while i < users.len()
        invariant
            keys_fit(users@, keys@),
            i <= users@.len(),
            earlier_rejected(encrypt_msg@, users@, i as int),
            keys_known(keys@, i - 1),
        decreases users@.len() - i,
    {
        let key = match &keys[i] {
            Some(k) => k,
            None => {
                proof {
                    lemma_no_match_before_missing_key(encrypt_msg@, users@, keys@, i as int);
                }
                return Err(AuthError::DigestFailed);
            },
        };
        assert(key@ == password_key(users@[i as int].1@));
        match aes_decrypt_with_base64(encrypt_msg, key.as_str()) {
            Some(text) => {
                if starts_with(text.as_str(), AUTH_HEAD) {
                    proof {
                        assert(matched_user(encrypt_msg@, users@, i as int));
                        lemma_match_unique(encrypt_msg@, users@, keys@, i as int);
                    }
                    return Ok((i, text));
                }
            },
            None => {},
        }
        assert(code_rejected(encrypt_msg@, users@[i as int].1@));
        assert(keys_known(keys@, i as int));
        i = i + 1;
    }
    proof {
        lemma_all_rejected(encrypt_msg@, users@, keys@);
    }
    Err(AuthError::NoSuchUser)
}

/// Lemma: where the `k`-th user matches, no user matches at another place,
/// and no key is missing before a match.
proof fn lemma_match_unique(msg: Seq<char>, users: Seq<(String, String)>, keys: Seq<Option<String>>, k: int)
    requires
        matched_user(msg, users, k),
        keys_known(keys, k),
        keys.len() == users.len(),
    ensures
        forall|j: int| #[trigger] matched_user(msg, users, j) ==> j == k,
        !exists|j: int|
            0 <= j < users.len() && earlier_rejected(msg, users, j) && keys_known(keys, j - 1)
                && #[trigger] keys[j] is None,
        !earlier_rejected(msg, users, users.len() as int),
{
    assert forall|j: int| #[trigger] matched_user(msg, users, j) implies j == k by {
        if j < k {
            assert(code_rejected(msg, users[j].1@));
        } else if j > k {
            assert(code_rejected(msg, users[k].1@));
        }
    }
    if exists|j: int|
        0 <= j < users.len() && earlier_rejected(msg, users, j) && keys_known(keys, j - 1)
            && #[trigger] keys[j] is None {
        let j = choose|j: int|
            0 <= j < users.len() && earlier_rejected(msg, users, j) && keys_known(keys, j - 1)
                && #[trigger] keys[j] is None;
        if j <= k {
            assert(keys[j] is Some);
        } else {
            assert(code_rejected(msg, users[k].1@));
        }
    }
    assert(!earlier_rejected(msg, users, users.len() as int)) by {
        assert(!code_rejected(msg, users[k].1@));
    }
}

/// Lemma: where the `k`-th key is missing and all before it are known and
/// reject the message, no user matches and the search does not end in no
/// match.
proof fn lemma_no_match_before_missing_key(msg: Seq<char>, users: Seq<(String, String)>, keys: Seq<Option<String>>, k: int)
    requires
        0 <= k < users.len(),
        keys.len() == users.len(),
        earlier_rejected(msg, users, k),
        keys_known(keys, k - 1),
        keys[k] is None,
    ensures
        !exists|j: int| #[trigger] matched_user(msg, users, j) && keys_known(keys, j),
        exists|j: int|
            0 <= j < users.len() && earlier_rejected(msg, users, j) && keys_known(keys, j - 1)
                && #[trigger] keys[j] is None,
        !keys_known(keys, users.len() - 1),
{
    if exists|j: int| #[trigger] matched_user(msg, users, j) && keys_known(keys, j) {
        let j = choose|j: int| #[trigger] matched_user(msg, users, j) && keys_known(keys, j);
        if j < k {
            assert(code_rejected(msg, users[j].1@));
        } else {
            assert(keys[k] is Some);
        }
    }
    assert(keys[k] is None);
}

/// Lemma: where every user rejects the message and every key is known, no
/// user matches and no key is missing.
proof fn lemma_all_rejected(msg: Seq<char>, users: Seq<(String, String)>, keys: Seq<Option<String>>)
    requires
        earlier_rejected(msg, users, users.len() as int),
        keys_known(keys, users.len() - 1),
        keys.len() == users.len(),
    ensures
        !exists|j: int| #[trigger] matched_user(msg, users, j) && keys_known(keys, j),
        !exists|j: int|
            0 <= j < users.len() && earlier_rejected(msg, users, j) && keys_known(keys, j - 1)
                && #[trigger] keys[j] is None,
{
    if exists|j: int| #[trigger] matched_user(msg, users, j) && keys_known(keys, j) {
        let j = choose|j: int| #[trigger] matched_user(msg, users, j) && keys_known(keys, j);
        assert(code_rejected(msg, users[j].1@));
    }
    if exists|j: int|
        0 <= j < users.len() && earlier_rejected(msg, users, j) && keys_known(keys, j - 1)
            && #[trigger] keys[j] is None {
        let j = choose|j: int|
            0 <= j < users.len() && earlier_rejected(msg, users, j) && keys_known(keys, j - 1)
                && #[trigger] keys[j] is None;
        assert(keys[j] is Some);
    }
}

/// The PEM text of a public key whose base64 body is `body`.
pub fn public_key_pem(body: &str) -> (r: String)
    ensures
        r@ == pem_text(body@),
{
    let mut pem = String::from_str("-----BEGIN PUBLIC KEY-----\n");
    pem.append(body);
    pem.append("\n-----END PUBLIC KEY-----");
    pem
}

/// The credentials a new device gets, as JSON.
pub fn grant_json_text(client_id: &str, key: &str, server_name: &str) -> (r: String)
    ensures
        r@ == grant_json(client_id@, key@, server_name@),
{
    let mut json = String::from_str("{\"clientId\":\"");
    json.append(client_id);
    json.append("\",\"key\":\"");
    json.append(key);
    json.append("\",\"serverName\":\"");
    json.append(server_name);
    json.append("\"}");
    json
}

/// The text of the handshake that the `k`-th user's key decrypts the
/// message to.
pub open spec fn matched_text(msg: Seq<char>, users: Seq<(String, String)>, k: int) -> Seq<char> {
    code_text(msg, users[k].1@)->Some_0
}

/// The PEM text of the device's public key in a handshake text: line 1 is
/// its body.
pub open spec fn grant_key_pem(text: Seq<char>) -> Seq<char> {
    pem_text(nth_line_or(lines(text), 1, seq![]))
}

/// A device made for a handshake text: named by line 2 (`Unknown` where
/// there is none), and a phone where line 3 says `lx_music_mobile`.
pub open spec fn device_fits(d: DeviceInfo, text: Seq<char>) -> bool {
    &&& d.device_name@ == nth_line_or(lines(text), 2, "Unknown"@)
    &&& d.is_mobile == (3 < lines(text).len() && lines(text)[3] == "lx_music_mobile"@)
}

/// The new device for a handshake text, with a fresh random client id and
/// key.
pub fn new_device_for(text: &String) -> (r: DeviceInfo)
    ensures
        device_fits(r, text@),
        r.last_connect_date == Some(0usize),
        exists|b: Seq<u8>| b.len() == 16 && r.client_id@ == base64_encoding(b),
        exists|b: Seq<u8>| b.len() == 16 && r.key@ == base64_encoding(b),
{
    let ls = split_lines(text.as_str());
    let device_name = nth_line(&ls, 2, "Unknown");
    let kind = nth_line(&ls, 3, "");
    let mobile_word = String::from_str("lx_music_mobile");
    let is_mobile = 3 < ls.len() && kind == mobile_word;
    DeviceInfo::new(device_name, is_mobile)
}

/// What goes to the RSA call for a new device: the device's credentials as
/// JSON, and the PEM text of the public key in the handshake text.
pub fn grant_payload(text: &String, device: &DeviceInfo, server_name: &str) -> (r: (String, String))
    ensures
        r.0@ == grant_json(device.client_id@, device.key@, server_name@),
        r.1@ == grant_key_pem(text@),
{
    let ls = split_lines(text.as_str());
    let key_body = nth_line(&ls, 1, "");
    proof {
        reveal_strlit("");
    }
    let public_key = public_key_pem(key_body.as_str());
    let json = grant_json_text(device.client_id.as_str(), device.key.as_str(), server_name);
    (json, public_key)
}

/// The answer to a matched handshake, given what the RSA call gave: the
/// grant of the device to the user with that reply, or `EncryptFailed`
/// where there is none.
pub fn finish_grant(username: String, device: DeviceInfo, reply: Option<String>) -> (r: Result<CodeAuthGrant, AuthError>)
    ensures
        reply is None <==> r == Err::<CodeAuthGrant, AuthError>(AuthError::EncryptFailed),
        reply matches Some(c) ==> r matches Ok(g) && g.username == username && g.device == device
            && g.reply == c,
{
    match reply {
        Some(reply) => Ok(CodeAuthGrant { username, device, reply }),
        None => Err(AuthError::EncryptFailed),
    }
}

/// Checks a handshake message made with a user's password. Each user is
/// tried in turn: the message must decrypt under the user's key to the head,
/// then the device's public key body, name and kind, one per line; a user
/// whose key does not give such a text is passed over. A new device is made
/// for the first user that matches, and its credentials go back encrypted
/// with the device's public key. Which keys could be made is decided by
/// OpenSSL; `find_code_user` states the outcome for each set of keys, and
/// `finish_grant` for each result of the RSA call.
pub fn auth_by_code(encrypt_msg: &str, users: &Vec<(String, String)>, server_name: &str) -> (r: Result<CodeAuthGrant, AuthError>)
    ensures
        r == Err::<CodeAuthGrant, AuthError>(AuthError::NoSuchUser) ==> earlier_rejected(
            encrypt_msg@,
            users@,
            users@.len() as int,
        ),
        r == Err::<CodeAuthGrant, AuthError>(AuthError::DigestFailed) ==> exists|k: int|
            0 <= k < users@.len() && #[trigger] earlier_rejected(encrypt_msg@, users@, k),
        r == Err::<CodeAuthGrant, AuthError>(AuthError::EncryptFailed) ==> exists|k: int, d: DeviceInfo|
            #![trigger matched_user(encrypt_msg@, users@, k), device_fits(d, matched_text(encrypt_msg@, users@, k))]
            matched_user(encrypt_msg@, users@, k) && device_fits(d, matched_text(encrypt_msg@, users@, k))
                && !rsa_encrypt_succeeds(
                grant_json(d.client_id@, d.key@, server_name@),
                grant_key_pem(matched_text(encrypt_msg@, users@, k)),
            ),
        r != Err::<CodeAuthGrant, AuthError>(AuthError::IncorrectFormat),
        r != Err::<CodeAuthGrant, AuthError>(AuthError::DecryptFailed),
        r matches Ok(g) ==> exists|k: int|
            #[trigger] matched_user(encrypt_msg@, users@, k) && grant_fits(
                g,
                users@[k],
                matched_text(encrypt_msg@, users@, k),
                server_name@,
            ),
{
    let keys = password_keys(users);
    let (i, text) = match find_code_user(encrypt_msg, users, &keys) {
        Ok(found) => found,
        Err(e) => return Err(e),
    };
    let device = new_device_for(&text);
    let (json, public_key) = grant_payload(&text, &device, server_name);
    let reply = rsa_encrypt_with_base64(json.as_str(), public_key.as_str());
    let ghost d = device;
    let r = finish_grant(users[i].0.clone(), device, reply);
    proof {
        assert(matched_user(encrypt_msg@, users@, i as int));
        assert(device_fits(d, matched_text(encrypt_msg@, users@, i as int)));
        if r is Ok {
            assert(grant_fits(r->Ok_0, users@[i as int], text@, server_name@));
        }
    }
    r
}

} // verus!
