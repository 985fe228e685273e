use lx_music_sync::utils::{epoch_millis, now_ms};

#[test]
fn clock_is_after_2020() {
    let now = now_ms().unwrap();
    assert!(now > 1_577_836_800_000);
}

#[test]
fn clock_readings() {
    assert_eq!(epoch_millis(Ok(1_700_000_000_000)), Some(1_700_000_000_000));
    assert_eq!(epoch_millis(Ok(0)), Some(0));
    assert_eq!(epoch_millis(Err(5)), None);
}
