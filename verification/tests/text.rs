use lx_music_sync::text::{join_with_newlines, split_lines};

#[test]
fn lines_split_like_str_lines() {
    assert_eq!(split_lines("a\nb\r\nc"), vec!["a", "b", "c"]);
    assert_eq!(split_lines("a\n"), vec!["a"]);
    assert_eq!(split_lines(""), Vec::<String>::new());
    assert_eq!(split_lines("\n\nx"), vec!["", "", "x"]);
}

#[test]
fn lines_join_with_newline() {
    assert_eq!(join_with_newlines(&vec!["a".to_string(), "b".to_string()]), "a\nb");
    assert_eq!(join_with_newlines(&vec![]), "");
}
