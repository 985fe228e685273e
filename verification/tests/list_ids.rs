use lx_music_sync::data::list::{de_list_id, se_list_id, ListIdError};

#[test]
fn deserialize_custom_list_id() {
    let id = "userlist_12345";
    let id: u64 = de_list_id(id).expect("should parse");
    assert_eq!(id, 12345);
}

#[test]
fn serialize_custom_list_id() {
    let id_str: serde_json::Value = serde_json::Value::String(se_list_id(12345));
    assert_eq!(id_str, serde_json::Value::String("userlist_12345".to_string()));
}

#[test]
fn default_and_love_ids() {
    assert_eq!(de_list_id("default"), Ok(0));
    assert_eq!(de_list_id("love"), Ok(1));
}

#[test]
fn list_id_with_plus_sign_parses() {
    assert_eq!(de_list_id("userlist_+42"), Ok(42));
}

#[test]
fn list_id_not_a_number() {
    assert_eq!(de_list_id("userlist_abc"), Err(ListIdError::NotANumber));
    assert_eq!(de_list_id("userlist_"), Err(ListIdError::NotANumber));
    assert_eq!(de_list_id("userlist_18446744073709551616"), Err(ListIdError::NotANumber));
}

#[test]
fn list_id_other_names_are_refused() {
    assert_eq!(de_list_id("playlist_5"), Err(ListIdError::UnknownName));
    assert_eq!(de_list_id("abc"), Err(ListIdError::UnknownName));
    assert_eq!(de_list_id(""), Err(ListIdError::UnknownName));
    assert_eq!(de_list_id("userlisté5"), Err(ListIdError::UnknownName));
    assert_eq!(de_list_id("Default"), Err(ListIdError::UnknownName));
}

#[test]
fn list_id_roundtrip_values() {
    for id in [0u64, 1, 7, 12345, u64::MAX] {
        let text = se_list_id(id);
        assert_eq!(de_list_id(&text), Ok(id));
    }
    assert_eq!(se_list_id(0), "userlist_0");
}
