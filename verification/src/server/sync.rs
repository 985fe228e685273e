//! The first sync of a kind of data when a device connects. The server asks
//! the device for its data; where it has no snapshot of the device's last
//! sync it takes the device's data as it is; otherwise it asks for the
//! MD5 of the device's data and merges where that differs from the latest
//! snapshot. Each step is a decision from the phase and what came back to
//! the next phase and the commands to carry out.
use vstd::prelude::*;
use crate::data::snapshot::SnapshotKey;
use crate::server::socket::DataType;
use crate::utils::crypto::MD5;

verus! {

/// Where the first sync of a kind of data stands.
#[derive(Clone, Copy, Debug, PartialEq, Eq, Structural)]
pub enum SyncPhase {
    /// Nothing asked yet.
    Start,
    /// The device was asked for its data.
    AwaitingData,
    /// The device was asked for the MD5 of its data.
    AwaitingMd5,
    /// Done; the device takes part in incremental sync.
    Finished,
}

/// What happened since the last step.
#[derive(Clone, Copy, Debug, PartialEq, Eq, Structural)]
pub enum SyncEvent {
    /// The sync begins.
    Begin,
    /// The device sent its data; whether the server has a snapshot of the
    /// device's last sync.
    ClientData { has_snapshot: bool },
    /// The device sent the MD5 of its data, with the key of the snapshot of
    /// the device's last sync and the key of the latest snapshot.
    ClientMd5 { client_md5: MD5, snapshot_key: Option<SnapshotKey>, current_key: SnapshotKey },
}

/// What the server does next.
#[derive(Clone, Copy, Debug, PartialEq, Eq, Structural)]
pub enum SyncCommand {
    /// Ask the device for its data.
    RequestData,
    /// Ask the device for the MD5 of its data.
    RequestMd5,
    /// Take the device's data as the current data (unless it is empty).
    OverwriteFromClient,
    /// Record that the device's last sync is the snapshot with this key.
    UpdateSnapshotKey(SnapshotKey),
    /// Merge the device's data into the current data, against the snapshot
    /// of its last sync.
    Merge,
    /// Send the merged data to the device.
    SendMergedData,
    /// Tell the other devices to overwrite their data with the merged data.
    BroadcastMergedData,
    /// Tell the device that the first sync of this kind is done.
    PostFinished,
    /// From now on the device gets and sends incremental changes.
    MarkReady,
}

/// The phase after a step and the commands of the step, in order.
pub struct SyncStep {
    pub phase: SyncPhase,
    pub commands: Vec<SyncCommand>,
}

/// The commands that end the sync.
pub open spec fn finish_commands() -> Seq<SyncCommand> {
    seq![SyncCommand::PostFinished, SyncCommand::MarkReady]
}

/// Whether the device's data is the latest snapshot, by MD5.
pub open spec fn is_latest(client_md5: MD5, current_key: SnapshotKey) -> bool {
    client_md5 == current_key
}

/// What a step does: the next phase and its commands. An event that does
/// not belong to the phase changes nothing.
pub open spec fn sync_transition(phase: SyncPhase, event: SyncEvent) -> (SyncPhase, Seq<SyncCommand>) {
    match (phase, event) {
        (SyncPhase::Start, SyncEvent::Begin) => (
            SyncPhase::AwaitingData,
            seq![SyncCommand::RequestData],
        ),
        (SyncPhase::AwaitingData, SyncEvent::ClientData { has_snapshot }) => if has_snapshot {
            (SyncPhase::AwaitingMd5, seq![SyncCommand::RequestMd5])
        } else {
            (SyncPhase::Finished, seq![SyncCommand::OverwriteFromClient] + finish_commands())
        },
        (SyncPhase::AwaitingMd5, SyncEvent::ClientMd5 { client_md5, snapshot_key, current_key }) => {
            if is_latest(client_md5, current_key) {
                match snapshot_key {
                    Some(k) if k != current_key => (
                        SyncPhase::Finished,
                        seq![SyncCommand::UpdateSnapshotKey(current_key)] + finish_commands(),
                    ),
                    _ => (SyncPhase::Finished, finish_commands()),
                }
            } else {
                (
                    SyncPhase::Finished,
                    seq![
                        SyncCommand::Merge,
                        SyncCommand::SendMergedData,
                        SyncCommand::BroadcastMergedData,
                    ] + finish_commands(),
                )
            }
        },
        _ => (phase, seq![]),
    }
}

/// Appends the commands that end the sync.
fn push_finish(commands: &mut Vec<SyncCommand>)
    ensures
        final(commands)@ == old(commands)@ + finish_commands(),
{
    commands.push(SyncCommand::PostFinished);
    commands.push(SyncCommand::MarkReady);
    assert(final(commands)@ =~= old(commands)@ + finish_commands());
}

/// One step of the first sync.
pub fn sync_step(phase: SyncPhase, event: SyncEvent) -> (r: SyncStep)
    ensures
        (r.phase, r.commands@) == sync_transition(phase, event),
{
    let mut commands: Vec<SyncCommand> = Vec::new();
    match (phase, event) {
        (SyncPhase::Start, SyncEvent::Begin) => {
            commands.push(SyncCommand::RequestData);
            assert(commands@ =~= seq![SyncCommand::RequestData]);
            SyncStep { phase: SyncPhase::AwaitingData, commands }
        },
        (SyncPhase::AwaitingData, SyncEvent::ClientData { has_snapshot }) => {
            if has_snapshot {
                commands.push(SyncCommand::RequestMd5);
                assert(commands@ =~= seq![SyncCommand::RequestMd5]);
                SyncStep { phase: SyncPhase::AwaitingMd5, commands }
            } else {
                commands.push(SyncCommand::OverwriteFromClient);
                assert(commands@ =~= seq![SyncCommand::OverwriteFromClient]);
                push_finish(&mut commands);
                SyncStep { phase: SyncPhase::Finished, commands }
            }
        },
        (SyncPhase::AwaitingMd5, SyncEvent::ClientMd5 { client_md5, snapshot_key, current_key }) => {
            if client_md5 == current_key {
                match snapshot_key {
                    Some(k) => {
                        if k != current_key {
                            commands.push(SyncCommand::UpdateSnapshotKey(current_key));
                            assert(commands@ =~= seq![SyncCommand::UpdateSnapshotKey(current_key)]);
                        }
                    },
                    None => {},
                }
                push_finish(&mut commands);
                proof {
                    if !(snapshot_key matches Some(k) && k != current_key) {
                        assert(commands@ =~= finish_commands());
                    }
                }
                SyncStep { phase: SyncPhase::Finished, commands }
            } else {
                commands.push(SyncCommand::Merge);
                commands.push(SyncCommand::SendMergedData);
                commands.push(SyncCommand::BroadcastMergedData);
                assert(commands@ =~= seq![
                    SyncCommand::Merge,
                    SyncCommand::SendMergedData,
                    SyncCommand::BroadcastMergedData,
                ]);
                push_finish(&mut commands);
                SyncStep { phase: SyncPhase::Finished, commands }
            }
        },
        _ => {
            assert(commands@ =~= Seq::<SyncCommand>::empty());
            SyncStep { phase, commands }
        },
    }
}

/// Law: a first sync that gets the answers it asks for ends, in two steps
/// after it begins or three, with the commands that end it last; the
/// device's data replaces the current data only where there is no snapshot
/// of its last sync, and is merged only where its MD5 differs from the
/// latest snapshot.
pub proof fn lemma_sync_completes(has_snapshot: bool, client_md5: MD5, snapshot_key: Option<SnapshotKey>, current_key: SnapshotKey)
    ensures
        ({
            let s1 = sync_transition(SyncPhase::Start, SyncEvent::Begin);
            let s2 = sync_transition(s1.0, SyncEvent::ClientData { has_snapshot });
            let s3 = sync_transition(s2.0, SyncEvent::ClientMd5 { client_md5, snapshot_key, current_key });
            &&& s1.0 == SyncPhase::AwaitingData
            &&& !has_snapshot ==> s2.0 == SyncPhase::Finished && s2.1 == seq![SyncCommand::OverwriteFromClient] + finish_commands()
            &&& has_snapshot ==> s2.0 == SyncPhase::AwaitingMd5 && s3.0 == SyncPhase::Finished
                && s3.1.len() >= 2 && s3.1.subrange(s3.1.len() - 2, s3.1.len() as int) == finish_commands()
                && (s3.1.contains(SyncCommand::Merge) <==> client_md5 != current_key)
                && !s3.1.contains(SyncCommand::OverwriteFromClient)
        }),
{
    let s1 = sync_transition(SyncPhase::Start, SyncEvent::Begin);
    let s2 = sync_transition(s1.0, SyncEvent::ClientData { has_snapshot });
    let s3 = sync_transition(s2.0, SyncEvent::ClientMd5 { client_md5, snapshot_key, current_key });
    if has_snapshot {
        let c = s3.1;
        assert(c.subrange(c.len() - 2, c.len() as int) =~= finish_commands());
        if client_md5 != current_key {
            assert(c[0] == SyncCommand::Merge);
        } else {
            assert forall|i: int| 0 <= i < c.len() implies c[i] != SyncCommand::Merge by {}
        }
        assert forall|i: int| 0 <= i < c.len() implies c[i] != SyncCommand::OverwriteFromClient by {}
    }
}

/// The messages of the first sync, which the device and the server name
/// after the kind of data.
#[derive(Clone, Copy, Debug, PartialEq, Eq, Structural)]
pub enum SyncMessage {
    GetListData,
    GetMd5,
    SetListData,
    Finished,
    DataOverwrite,
}

/// The word a kind of data is named by in messages.
pub open spec fn data_type_word(data_type: DataType) -> Seq<char> {
    match data_type {
        DataType::List => "list"@,
        DataType::Dislike => "dislike"@,
    }
}

/// What follows the word in a message's name.
pub open spec fn message_suffix(message: SyncMessage) -> Seq<char> {
    match message {
        SyncMessage::GetListData => "_sync_get_list_data"@,
        SyncMessage::GetMd5 => "_sync_get_md5"@,
        SyncMessage::SetListData => "_sync_set_list_data"@,
        SyncMessage::Finished => "_sync_finished"@,
        SyncMessage::DataOverwrite => "_data_overwrite"@,
    }
}

/// The name of a message of the first sync of a kind of data, such as
/// `list_sync_get_md5`.
pub fn sync_message_name(data_type: DataType, message: SyncMessage) -> (r: String)
    ensures
        r@ == data_type_word(data_type) + message_suffix(message),
{
    let mut name = match data_type {
        DataType::List => String::from_str("list"),
        DataType::Dislike => String::from_str("dislike"),
    };
    let suffix = match message {
        SyncMessage::GetListData => "_sync_get_list_data",
        SyncMessage::GetMd5 => "_sync_get_md5",
        SyncMessage::SetListData => "_sync_set_list_data",
        SyncMessage::Finished => "_sync_finished",
        SyncMessage::DataOverwrite => "_data_overwrite",
    };
    name.append(suffix);
    name
}

} // verus!
