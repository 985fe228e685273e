use lx_music_sync::data::dislike::{format_to_rule, DislikeData, DislikeSyncAction};

fn data(s: &str) -> DislikeData {
    DislikeData { rules: s.to_string() }
}

#[test]
fn rule_format() {
    assert_eq!(format_to_rule(("Song".to_string(), "".to_string())), "Song");
    assert_eq!(format_to_rule(("Song".to_string(), "Singer".to_string())), "Song@Singer");
}

#[test]
fn dislike_merge_three_way() {
    let mut current = data("a\nb\nc");
    let client = data("a\nc\nd");
    let snapshot = data("a\nb\nc");
    current.merge(&client, &snapshot);
    assert_eq!(current.rules, "a\nc\nd");
}

#[test]
fn dislike_merge_drops_duplicates() {
    let mut current = data("x\nx\ny");
    let client = data("y\nz");
    let snapshot = data("");
    current.merge(&client, &snapshot);
    assert_eq!(current.rules, "x\ny\nz");
}

#[test]
fn dislike_add_appends_without_separator() {
    let mut d = data("ab");
    d.on(DislikeSyncAction::Add(vec![("c".to_string(), "".to_string()), ("d".to_string(), "e".to_string())]));
    assert_eq!(d.rules, "abc\nd@e");
}

#[test]
fn dislike_overwrite_and_clear() {
    let mut d = data("a");
    assert!(!d.is_empty());
    d.on(DislikeSyncAction::Overwrite("b\nc".to_string()));
    assert_eq!(d.rules, "b\nc");
    d.on(DislikeSyncAction::Clear);
    assert!(d.is_empty());
}
