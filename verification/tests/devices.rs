use lx_music_sync::data::user::{DeviceInfo, DevicesInfos};
use lx_music_sync::data::{ServerInfo, SERVER_ID_PREFIX};

fn device(id: &str, name: &str) -> DeviceInfo {
    DeviceInfo {
        client_id: id.to_string(),
        key: format!("key-{id}"),
        device_name: name.to_string(),
        is_mobile: false,
        last_connect_date: None,
    }
}

#[test]
fn new_device_has_random_ids() {
    let a = DeviceInfo::new("phone".to_string(), true);
    let b = DeviceInfo::new("phone".to_string(), true);
    assert_eq!(a.client_id.len(), 24);
    assert_eq!(a.key.len(), 24);
    assert_ne!(a.client_id, b.client_id);
    assert_eq!(a.get_device_name(), "phone");
    assert!(a.is_mobile);
    assert_eq!(a.last_connect_date, Some(0));
}

#[test]
fn device_rename() {
    let mut d = device("x", "old");
    assert!(!d.update_device_name("old"));
    assert!(d.update_device_name("new"));
    assert_eq!(d.device_name, "new");
}

#[test]
fn devices_registry() {
    let mut infos = DevicesInfos::load(vec![device("a", "one"), device("b", "two"), device("a", "three")]);
    assert_eq!(infos.get_client_device_info(&"a".to_string()).unwrap().device_name, "three");
    assert!(infos.get_client_device_info(&"c".to_string()).is_none());
    infos.insert_device(device("c", "four"));
    let mut ids = infos.client_ids();
    ids.sort();
    assert_eq!(ids, vec!["a", "b", "c"]);
    assert!(infos.update_device_name(&"b".to_string(), "renamed"));
    assert!(!infos.update_device_name(&"b".to_string(), "renamed"));
    assert_eq!(infos.get_client_device_info(&"b".to_string()).unwrap().device_name, "renamed");
    assert_eq!(infos.infos().len(), 3);
}

#[test]
fn server_identity() {
    let info = ServerInfo::generate();
    assert_eq!(info.server_id.len(), 24);
    assert_eq!(info.id_text(), format!("{}{}", SERVER_ID_PREFIX, info.server_id));
}
