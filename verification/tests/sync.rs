use lx_music_sync::server::socket::DataType;
use lx_music_sync::server::sync::{sync_message_name, sync_step, SyncCommand, SyncEvent, SyncMessage, SyncPhase};

#[test]
fn sync_without_snapshot_overwrites() {
    let s = sync_step(SyncPhase::Start, SyncEvent::Begin);
    assert_eq!(s.phase, SyncPhase::AwaitingData);
    assert_eq!(s.commands, vec![SyncCommand::RequestData]);
    let s = sync_step(s.phase, SyncEvent::ClientData { has_snapshot: false });
    assert_eq!(s.phase, SyncPhase::Finished);
    assert_eq!(
        s.commands,
        vec![SyncCommand::OverwriteFromClient, SyncCommand::PostFinished, SyncCommand::MarkReady]
    );
}

#[test]
fn sync_up_to_date_moves_snapshot_key() {
    let s = sync_step(SyncPhase::AwaitingData, SyncEvent::ClientData { has_snapshot: true });
    assert_eq!(s.phase, SyncPhase::AwaitingMd5);
    assert_eq!(s.commands, vec![SyncCommand::RequestMd5]);
    let s = sync_step(s.phase, SyncEvent::ClientMd5 { client_md5: 5, snapshot_key: Some(3), current_key: 5 });
    assert_eq!(s.phase, SyncPhase::Finished);
    assert_eq!(
        s.commands,
        vec![SyncCommand::UpdateSnapshotKey(5), SyncCommand::PostFinished, SyncCommand::MarkReady]
    );
}

#[test]
fn sync_up_to_date_same_key_only_finishes() {
    let s = sync_step(SyncPhase::AwaitingMd5, SyncEvent::ClientMd5 { client_md5: 5, snapshot_key: Some(5), current_key: 5 });
    assert_eq!(s.commands, vec![SyncCommand::PostFinished, SyncCommand::MarkReady]);
    let s = sync_step(SyncPhase::AwaitingMd5, SyncEvent::ClientMd5 { client_md5: 5, snapshot_key: None, current_key: 5 });
    assert_eq!(s.commands, vec![SyncCommand::PostFinished, SyncCommand::MarkReady]);
}

#[test]
fn sync_outdated_merges() {
    let s = sync_step(SyncPhase::AwaitingMd5, SyncEvent::ClientMd5 { client_md5: 1, snapshot_key: Some(3), current_key: 5 });
    assert_eq!(s.phase, SyncPhase::Finished);
    assert_eq!(
        s.commands,
        vec![
            SyncCommand::Merge,
            SyncCommand::SendMergedData,
            SyncCommand::BroadcastMergedData,
            SyncCommand::PostFinished,
            SyncCommand::MarkReady
        ]
    );
}

#[test]
fn sync_ignores_out_of_order_events() {
    let s = sync_step(SyncPhase::Finished, SyncEvent::Begin);
    assert_eq!(s.phase, SyncPhase::Finished);
    assert!(s.commands.is_empty());
    let s = sync_step(SyncPhase::Start, SyncEvent::ClientData { has_snapshot: true });
    assert_eq!(s.phase, SyncPhase::Start);
    assert!(s.commands.is_empty());
}

#[test]
fn sync_message_names() {
    assert_eq!(sync_message_name(DataType::List, SyncMessage::GetListData), "list_sync_get_list_data");
    assert_eq!(sync_message_name(DataType::Dislike, SyncMessage::GetMd5), "dislike_sync_get_md5");
    assert_eq!(sync_message_name(DataType::List, SyncMessage::SetListData), "list_sync_set_list_data");
    assert_eq!(sync_message_name(DataType::Dislike, SyncMessage::Finished), "dislike_sync_finished");
    assert_eq!(sync_message_name(DataType::List, SyncMessage::DataOverwrite), "list_data_overwrite");
}
