use lx_music_sync::data::config::AddMusicLocation;
use lx_music_sync::data::list::custom_list::{CustomList, CustomListInfo};
use lx_music_sync::data::list::handler::ListSyncAction;
use lx_music_sync::data::list::music::{combine_without_duplication, merge_vec, MusicInfo, MusicSource};
use lx_music_sync::data::list::ListData;

fn song(id: &str) -> MusicInfo {
    MusicInfo {
        id: id.to_string(),
        name: format!("name {id}"),
        singer: "singer".to_string(),
        source: MusicSource::KW,
        interval: "\"03:00\"".to_string(),
        meta: "{}".to_string(),
    }
}

fn ids(v: &[MusicInfo]) -> Vec<String> {
    v.iter().map(|m| m.id.clone()).collect()
}

fn info(id: u64, name: &str, time: Option<u128>) -> CustomListInfo {
    CustomListInfo {
        id,
        name: name.to_string(),
        source: None,
        source_list_id: None,
        location_update_time: time,
    }
}

fn list(id: u64, name: &str, time: Option<u128>, songs: &[&str]) -> CustomList {
    CustomList { info: info(id, name, time), list: songs.iter().map(|s| song(s)).collect() }
}

fn list_ids(v: &[CustomList]) -> Vec<u64> {
    v.iter().map(|l| l.info.id).collect()
}

#[test]
fn merge_vec_drops_deleted_and_adds_new_at_bottom() {
    let current = vec![song("a"), song("b"), song("c")];
    let client = vec![song("a"), song("c"), song("d")];
    let snapshot = vec![song("a"), song("b"), song("c")];
    let merged = merge_vec(&current, &client, &snapshot, &AddMusicLocation::Bottom);
    assert_eq!(ids(&merged), vec!["a", "c", "d"]);
}

#[test]
fn merge_vec_adds_new_at_top() {
    let current = vec![song("a"), song("x")];
    let client = vec![song("d"), song("a"), song("e")];
    let snapshot = vec![song("a")];
    let merged = merge_vec(&current, &client, &snapshot, &AddMusicLocation::Top);
    assert_eq!(ids(&merged), vec!["d", "e", "a", "x"]);
}

#[test]
fn merge_vec_deletion_on_server_wins() {
    let current = vec![song("b")];
    let client = vec![song("a"), song("b")];
    let snapshot = vec![song("a"), song("b")];
    let merged = merge_vec(&current, &client, &snapshot, &AddMusicLocation::Bottom);
    assert_eq!(ids(&merged), vec!["b"]);
}

#[test]
fn combine_keeps_server_songs_once() {
    let current = vec![song("a"), song("b")];
    let client = vec![song("b"), song("c")];
    let merged = combine_without_duplication(&current, &client, &AddMusicLocation::Bottom);
    assert_eq!(ids(&merged), vec!["a", "b", "c"]);
}

#[test]
fn list_info_merge_takes_client_change() {
    let current = info(5, "old", Some(1));
    let snapshot = info(5, "old", Some(1));
    let client = info(5, "new", Some(9));
    let merged = current.merge(&client, &snapshot);
    assert_eq!(merged.name, "new");
    assert_eq!(merged.location_update_time, Some(1));
    let server_changed = info(5, "server", Some(1));
    let merged = server_changed.merge(&client, &snapshot);
    assert_eq!(merged.name, "server");
}

#[test]
fn list_data_merge_three_way() {
    let mut current = ListData {
        default: vec![song("a"), song("b")],
        love: vec![song("l1")],
        custom_lists: vec![list(10, "ten", None, &["x"]), list(11, "eleven", None, &["y"])],
    };
    let client = ListData {
        default: vec![song("a"), song("c")],
        love: vec![song("l1"), song("l2")],
        custom_lists: vec![list(10, "ten!", None, &["x", "z"]), list(12, "twelve", None, &[])],
    };
    let snapshot = ListData {
        default: vec![song("a"), song("b")],
        love: vec![song("l1")],
        custom_lists: vec![list(10, "ten", None, &["x"]), list(11, "eleven", None, &["y"])],
    };
    current.merge(&client, &snapshot, &AddMusicLocation::Bottom);
    assert_eq!(ids(&current.default), vec!["a", "c"]);
    assert_eq!(ids(&current.love), vec!["l1", "l2"]);
    assert_eq!(list_ids(&current.custom_lists), vec![10, 12]);
    assert_eq!(current.custom_lists[0].info.name, "ten!");
    assert_eq!(ids(&current.custom_lists[0].list), vec!["x", "z"]);
}

#[test]
fn list_data_merge_moves_list_to_client_position() {
    let mut current = ListData {
        default: vec![],
        love: vec![],
        custom_lists: vec![list(1, "one", Some(1), &[]), list(2, "two", Some(1), &[])],
    };
    let client = ListData {
        default: vec![],
        love: vec![],
        custom_lists: vec![list(2, "two", Some(5), &[]), list(1, "one", Some(1), &[])],
    };
    let snapshot = ListData { default: vec![], love: vec![], custom_lists: vec![] };
    assert!(current.merge_checked(&client, &snapshot, &AddMusicLocation::Bottom));
    assert_eq!(list_ids(&current.custom_lists), vec![2, 1]);
    assert_eq!(current.custom_lists[0].info.location_update_time, Some(1));
}

#[test]
fn list_data_merge_refuses_insert_past_end() {
    let mut current = ListData { default: vec![song("a")], love: vec![], custom_lists: vec![] };
    let client = ListData {
        default: vec![],
        love: vec![],
        custom_lists: vec![list(1, "one", Some(3), &[]), list(2, "two", Some(3), &[])],
    };
    let snapshot = ListData {
        default: vec![song("a")],
        love: vec![],
        custom_lists: vec![list(1, "one", Some(3), &[])],
    };
    assert!(!current.merge_checked(&client, &snapshot, &AddMusicLocation::Bottom));
    assert_eq!(ids(&current.default), vec!["a"]);
    assert!(current.custom_lists.is_empty());
}

#[test]
fn list_data_is_empty() {
    let empty = ListData { default: vec![], love: vec![], custom_lists: vec![] };
    assert!(empty.is_empty());
    let one = ListData { default: vec![], love: vec![song("a")], custom_lists: vec![] };
    assert!(!one.is_empty());
}

#[test]
fn list_create_inserts_at_position() {
    let mut data = ListData {
        default: vec![],
        love: vec![],
        custom_lists: vec![list(1, "one", None, &[]), list(2, "two", None, &[])],
    };
    data.on(ListSyncAction::ListCreate { position: 1, infos: vec![info(3, "three", None), info(1, "dup", None)] });
    assert_eq!(list_ids(&data.custom_lists), vec![1, 3, 2]);
    assert_eq!(data.custom_lists[0].info.name, "one");
    data.on_list_create(-5, vec![info(4, "four", None)]);
    assert_eq!(list_ids(&data.custom_lists), vec![4, 1, 3, 2]);
    data.on_list_create(100, vec![info(5, "five", None)]);
    assert_eq!(list_ids(&data.custom_lists), vec![4, 1, 3, 2, 5]);
}

#[test]
fn list_remove_by_ids() {
    let mut data = ListData {
        default: vec![],
        love: vec![],
        custom_lists: vec![list(1, "a", None, &[]), list(2, "b", None, &[]), list(3, "c", None, &[])],
    };
    data.on(ListSyncAction::ListRemove(vec![2]));
    assert_eq!(list_ids(&data.custom_lists), vec![1, 3]);
    data.on_list_remove(vec![1, 3, 9]);
    assert!(data.custom_lists.is_empty());
}

#[test]
fn list_update_replaces_descriptions() {
    let mut data = ListData {
        default: vec![],
        love: vec![],
        custom_lists: vec![list(1, "a", None, &["s"]), list(2, "b", None, &[])],
    };
    data.on(ListSyncAction::ListUpdate(vec![info(1, "first", None), info(1, "second", Some(4)), info(7, "x", None)]));
    assert_eq!(data.custom_lists[0].info.name, "second");
    assert_eq!(data.custom_lists[0].info.location_update_time, Some(4));
    assert_eq!(ids(&data.custom_lists[0].list), vec!["s"]);
    assert_eq!(data.custom_lists[1].info.name, "b");
}

#[test]
fn list_overwrite_replaces_everything() {
    let mut data = ListData { default: vec![song("a")], love: vec![], custom_lists: vec![] };
    data.on(ListSyncAction::ListDataOverwrite(ListData { default: vec![], love: vec![song("b")], custom_lists: vec![] }));
    assert!(data.default.is_empty());
    assert_eq!(ids(&data.love), vec!["b"]);
}

#[test]
fn music_info_ids() {
    let m = song("abc");
    assert_eq!(m.get_id(), "abc");
    assert_eq!(m.take_id(), "abc");
    let l = list(9, "nine", None, &[]);
    assert_eq!(l.id(), 9);
}

#[test]
fn merge_vec_unchanged_client_keeps_server_list() {
    let current = vec![song("x"), song("a"), song("y")];
    let client = vec![song("b"), song("a")];
    let snapshot = vec![song("a"), song("b")];
    let top = merge_vec(&current, &client, &snapshot, &AddMusicLocation::Top);
    assert_eq!(ids(&top), vec!["x", "a", "y"]);
    let bottom = merge_vec(&current, &client, &snapshot, &AddMusicLocation::Bottom);
    assert_eq!(ids(&bottom), vec!["x", "a", "y"]);
}
