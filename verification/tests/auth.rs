use base64::prelude::{Engine, BASE64_STANDARD};
use lx_music_sync::auth::{
    auth_by_code, auth_by_key, find_code_user, finish_grant, grant_json_text, grant_payload, new_device_for, password_keys,
    public_key_pem, AuthError, AUTH_HEAD,
    HELLO_TEXT,
};
use lx_music_sync::utils::crypto::{aes_decrypt_with_base64, aes_encrypt_with_base64, md5_to_hex, to_md5};
use openssl::rsa::{Padding, Rsa};

fn device_key() -> String {
    BASE64_STANDARD.encode(b"abcdefghijklmnop")
}

fn password_key(password: &str) -> String {
    let hex = md5_to_hex(to_md5(password.as_bytes()).unwrap());
    BASE64_STANDARD.encode(&hex.as_bytes()[..16])
}

#[test]
fn key_auth_unknown_device() {
    assert!(matches!(auth_by_key("anything", None), Err(AuthError::NoSuchUser)));
}

#[test]
fn key_auth_accepts_head_and_name() {
    let key = device_key();
    let msg = aes_encrypt_with_base64(&format!("{AUTH_HEAD}My Phone"), &key).unwrap();
    let grant = auth_by_key(&msg, Some(&key)).unwrap();
    assert_eq!(grant.device_name, "My Phone");
    assert_eq!(aes_decrypt_with_base64(&grant.reply, &key).unwrap(), HELLO_TEXT);
}

#[test]
fn key_auth_rejects_other_text() {
    let key = device_key();
    let msg = aes_encrypt_with_base64("hello there", &key).unwrap();
    assert!(matches!(auth_by_key(&msg, Some(&key)), Err(AuthError::IncorrectFormat)));
}

#[test]
fn key_auth_rejects_undecryptable() {
    let key = device_key();
    assert!(matches!(auth_by_key("%%%", Some(&key)), Err(AuthError::DecryptFailed)));
}

fn pem_body(private: &Rsa<openssl::pkey::Private>) -> String {
    let pem = String::from_utf8(private.public_key_to_pem().unwrap()).unwrap();
    pem.lines().filter(|l| !l.starts_with("-----")).collect::<Vec<_>>().join("")
}

#[test]
fn code_auth_creates_device_for_matching_user() {
    let private = Rsa::generate(2048).unwrap();
    let body = pem_body(&private);
    let users = vec![
        ("bob".to_string(), "bob-password".to_string()),
        ("alice".to_string(), "alice-password".to_string()),
    ];
    let text = format!("{AUTH_HEAD}\n{body}\nBob's Phone\nlx_music_mobile");
    let msg = aes_encrypt_with_base64(&text, &password_key("bob-password")).unwrap();
    let grant = match auth_by_code(&msg, &users, "My Server") {
        Ok(g) => g,
        Err(e) => panic!("auth failed: {e:?}"),
    };
    assert_eq!(grant.username, "bob");
    assert_eq!(grant.device.device_name, "Bob's Phone");
    assert!(grant.device.is_mobile);
    let sealed = BASE64_STANDARD.decode(&grant.reply).unwrap();
    let mut plain = vec![0u8; private.size() as usize];
    let n = private.private_decrypt(&sealed, &mut plain, Padding::PKCS1_OAEP).unwrap();
    let json = String::from_utf8(plain[..n].to_vec()).unwrap();
    assert_eq!(
        json,
        format!(
            "{{\"clientId\":\"{}\",\"key\":\"{}\",\"serverName\":\"My Server\"}}",
            grant.device.client_id, grant.device.key
        )
    );
}

#[test]
fn code_auth_defaults_device_name() {
    let private = Rsa::generate(2048).unwrap();
    let body = pem_body(&private);
    let users = vec![("alice".to_string(), "pw".to_string())];
    let text = format!("{AUTH_HEAD}\n{body}");
    let msg = aes_encrypt_with_base64(&text, &password_key("pw")).unwrap();
    let grant = match auth_by_code(&msg, &users, "S") {
        Ok(g) => g,
        Err(e) => panic!("auth failed: {e:?}"),
    };
    assert_eq!(grant.device.device_name, "Unknown");
    assert!(!grant.device.is_mobile);
}

#[test]
fn code_auth_no_user_matches() {
    let users = vec![("alice".to_string(), "pw".to_string())];
    let msg = aes_encrypt_with_base64("not a handshake", &password_key("pw")).unwrap();
    assert!(matches!(auth_by_code(&msg, &users, "S"), Err(AuthError::NoSuchUser)));
    assert!(matches!(auth_by_code(&msg, &vec![], "S"), Err(AuthError::NoSuchUser)));
}

#[test]
fn code_auth_tries_users_in_turn() {
    let users = vec![("alice".to_string(), "pw-a".to_string()), ("bob".to_string(), "pw-b".to_string())];
    let msg = aes_encrypt_with_base64("plain words", &password_key("pw-a")).unwrap();
    // alice's key reads the message but finds no handshake; bob's key
    // cannot decrypt it: neither user matches.
    let result = auth_by_code(&msg, &users, "S");
    assert!(matches!(result, Err(AuthError::NoSuchUser)));
}

#[test]
fn code_auth_bad_message() {
    let users = vec![("alice".to_string(), "pw".to_string())];
    assert!(matches!(auth_by_code("%%%", &users, "S"), Err(AuthError::NoSuchUser)));
}

#[test]
fn code_auth_bad_public_key() {
    let users = vec![("alice".to_string(), "pw".to_string())];
    let text = format!("{AUTH_HEAD}\nnot-a-key\nPC");
    let msg = aes_encrypt_with_base64(&text, &password_key("pw")).unwrap();
    assert!(matches!(auth_by_code(&msg, &users, "S"), Err(AuthError::EncryptFailed)));
}

#[test]
fn code_auth_passes_over_users_whose_key_does_not_fit() {
    let private = Rsa::generate(2048).unwrap();
    let body = pem_body(&private);
    let users = vec![("alice".to_string(), "pw-a".to_string()), ("bob".to_string(), "pw-b".to_string())];
    let text = format!("{AUTH_HEAD}\n{body}\nLaptop");
    let msg = aes_encrypt_with_base64(&text, &password_key("pw-b")).unwrap();
    let grant = match auth_by_code(&msg, &users, "S") {
        Ok(g) => g,
        Err(e) => panic!("auth failed: {e:?}"),
    };
    assert_eq!(grant.username, "bob");
    assert_eq!(grant.device.device_name, "Laptop");
}

#[test]
fn find_user_with_given_keys() {
    let users = vec![("alice".to_string(), "pw-a".to_string()), ("bob".to_string(), "pw-b".to_string())];
    let msg = aes_encrypt_with_base64(&format!("{AUTH_HEAD}\nbody"), &password_key("pw-b")).unwrap();
    let keys = password_keys(&users);
    assert_eq!(keys, vec![Some(password_key("pw-a")), Some(password_key("pw-b"))]);
    match find_code_user(&msg, &users, &keys) {
        Ok((i, text)) => {
            assert_eq!(i, 1);
            assert_eq!(text, format!("{AUTH_HEAD}\nbody"));
        }
        Err(e) => panic!("no match: {e:?}"),
    }
    let missing = vec![Some(password_key("pw-a")), None];
    assert!(matches!(find_code_user(&msg, &users, &missing), Err(AuthError::DigestFailed)));
    let missing_after = vec![None, Some(password_key("pw-b"))];
    assert!(matches!(find_code_user(&msg, &users, &missing_after), Err(AuthError::DigestFailed)));
    let other = aes_encrypt_with_base64("nothing", &password_key("pw-a")).unwrap();
    assert!(matches!(find_code_user(&other, &users, &keys), Err(AuthError::NoSuchUser)));
}

#[test]
fn pem_and_credentials_text() {
    assert_eq!(
        public_key_pem("ABC"),
        "-----BEGIN PUBLIC KEY-----\nABC\n-----END PUBLIC KEY-----"
    );
    assert_eq!(
        grant_json_text("id1", "k1", "Srv"),
        "{\"clientId\":\"id1\",\"key\":\"k1\",\"serverName\":\"Srv\"}"
    );
}

#[test]
fn key_auth_with_short_key_is_refused() {
    let short = BASE64_STANDARD.encode(b"short");
    assert!(matches!(auth_by_key("anything", Some(&short)), Err(AuthError::DecryptFailed)));
    assert_eq!(aes_encrypt_with_base64("x", &short), None);
}

#[test]
fn grant_step_pieces() {
    let text = format!("{AUTH_HEAD}\nBODY\nTablet\nlx_music_mobile");
    let device = new_device_for(&text);
    assert_eq!(device.device_name, "Tablet");
    assert!(device.is_mobile);
    let (json, pem) = grant_payload(&text, &device, "Srv");
    assert_eq!(json, format!("{{\"clientId\":\"{}\",\"key\":\"{}\",\"serverName\":\"Srv\"}}", device.client_id, device.key));
    assert_eq!(pem, "-----BEGIN PUBLIC KEY-----\nBODY\n-----END PUBLIC KEY-----");
    let id = device.client_id.clone();
    match finish_grant("alice".to_string(), device, Some("REPLY".to_string())) {
        Ok(g) => {
            assert_eq!(g.username, "alice");
            assert_eq!(g.reply, "REPLY");
            assert_eq!(g.device.client_id, id);
        }
        Err(e) => panic!("unexpected: {e:?}"),
    }
    let other = new_device_for(&"x".to_string());
    assert_eq!(other.device_name, "Unknown");
    assert!(!other.is_mobile);
    assert!(matches!(finish_grant("alice".to_string(), other, None), Err(AuthError::EncryptFailed)));
}
