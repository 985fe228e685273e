//! The user's own lists: their descriptions and their songs.
use vstd::prelude::*;
use crate::data::config::AddMusicLocation;
use crate::data::list::music::{MusicInfo, MusicSource, combined_music, combine_without_duplication, has_music, lemma_combined_music_keeps};

verus! {

/// The description of a user's list.
pub struct CustomListInfo {
    pub id: u64,
    pub name: String,
    pub source: Option<MusicSource>,
    pub source_list_id: Option<String>,
    pub location_update_time: Option<u128>,
}

/// A user's list: its description and its songs.
pub struct CustomList {
    pub info: CustomListInfo,
    pub list: Vec<MusicInfo>,
}

/// The view of an optional string.
pub open spec fn opt_view(o: Option<String>) -> Option<Seq<char>> {
    match o {
        Some(s) => Some(s@),
        None => None,
    }
}

/// A copy of an optional string.
pub fn clone_opt_string(o: &Option<String>) -> (r: Option<String>)
    ensures
        r == *o,
{
    match o {
        Some(s) => Some(s.clone()),
        None => None,
    }
}

/// Whether two optional strings are equal.
pub fn opt_string_eq(a: &Option<String>, b: &Option<String>) -> (r: bool)
    ensures
        r == (opt_view(*a) == opt_view(*b)),
{
    match (a, b) {
        (Some(x), Some(y)) => *x == *y,
        (None, None) => true,
        _ => false,
    }
}

/// Whether two optional sources are equal.
pub fn opt_source_eq(a: &Option<MusicSource>, b: &Option<MusicSource>) -> (r: bool)
    ensures
        r == (*a == *b),
{
    match (a, b) {
        (Some(x), Some(y)) => *x == *y,
        (None, None) => true,
        _ => false,
    }
}

/// The description that a merge keeps: the id and position time of the
/// server's list; for each other field the client's value where the
/// server still has the snapshot's value, else the server's.
pub open spec fn merged_info(current: CustomListInfo, client: CustomListInfo, snapshot: CustomListInfo) -> CustomListInfo {
    CustomListInfo {
        id: current.id,
        name: if current.name@ == snapshot.name@ {
            client.name
        } else {
            current.name
        },
        source: if current.source == snapshot.source {
            client.source
        } else {
            current.source
        },
        source_list_id: if opt_view(current.source_list_id) == opt_view(snapshot.source_list_id) {
            client.source_list_id
        } else {
            current.source_list_id
        },
        location_update_time: current.location_update_time,
    }
}

impl CustomListInfo {
    /// A copy of the description.
    pub fn duplicate(&self) -> (r: Self)
        ensures
            r == *self,
    {
        CustomListInfo {
            id: self.id,
            name: self.name.clone(),
            source: self.source,
            source_list_id: clone_opt_string(&self.source_list_id),
            location_update_time: self.location_update_time,
        }
    }

    /// Merges the descriptions of one list: the client's change of a field
    /// is taken where the server did not change it since the snapshot.
    pub fn merge(&self, client_list: &Self, snapshot_list: &Self) -> (r: Self)
        ensures
            r == merged_info(*self, *client_list, *snapshot_list),
    {
        CustomListInfo {
            id: self.id,
            name: if self.name == snapshot_list.name {
                client_list.name.clone()
            } else {
                self.name.clone()
            },
            source: if opt_source_eq(&self.source, &snapshot_list.source) {
                client_list.source
            } else {
                self.source
            },
            source_list_id: if opt_string_eq(&self.source_list_id, &snapshot_list.source_list_id) {
                clone_opt_string(&client_list.source_list_id)
            } else {
                clone_opt_string(&self.source_list_id)
            },
            location_update_time: self.location_update_time,
        }
    }
}

/// A copy of a vector of songs.
pub fn clone_music_vec(v: &Vec<MusicInfo>) -> (r: Vec<MusicInfo>)
    ensures
        r@ == v@,
{
    let mut out: Vec<MusicInfo> = Vec::new();
    let mut i: usize = 0;
    while i < v.len()
        invariant
            i <= v@.len(),
            out@ == v@.take(i as int),
        decreases v@.len() - i,
    {
        out.push(v[i].duplicate());
        assert(v@.take(i + 1) =~= v@.take(i as int).push(v@[i as int]));
        i = i + 1;
    }
    assert(v@.take(v@.len() as int) =~= v@);
    out
}

/// A user's list as a value: its description and its songs.
pub struct CustomListView {
    pub info: CustomListInfo,
    pub list: Seq<MusicInfo>,
}

impl View for CustomList {
    type V = CustomListView;

    open spec fn view(&self) -> CustomListView {
        CustomListView { info: self.info, list: self.list@ }
    }
}

/// The views of a vector of lists.
pub open spec fn lists_view(v: Seq<CustomList>) -> Seq<CustomListView> {
    v.map_values(|l: CustomList| l@)
}

/// The list with the client's songs added, keeping its description.
pub open spec fn list_merged(current: CustomListView, client: CustomListView, add_location: AddMusicLocation) -> CustomListView {
    CustomListView {
        info: current.info,
        list: combined_music(current.list, client.list, add_location),
    }
}

/// The list with both descriptions merged and the client's songs added.
pub open spec fn list_merged_with_snapshot(
    current: CustomListView,
    client: CustomListView,
    snapshot: CustomListView,
    add_location: AddMusicLocation,
) -> CustomListView {
    CustomListView {
        info: merged_info(current.info, client.info, snapshot.info),
        list: combined_music(current.list, client.list, add_location),
    }
}

impl CustomList {
    /// The list's id.
    pub fn id(&self) -> (r: u64)
        ensures
            r == self.info.id,
    {
        self.info.id
    }

    /// A copy of the list.
    pub fn duplicate(&self) -> (r: Self)
        ensures
            r@ == self@,
    {
        CustomList { info: self.info.duplicate(), list: clone_music_vec(&self.list) }
    }

    /// Adds the client's songs that the list lacks, keeping its description.
    pub fn merge(&self, client_list: &Self, add_location: &AddMusicLocation) -> (r: Self)
        ensures
            r@ == list_merged(self@, client_list@, *add_location),
    {
        CustomList {
            info: self.info.duplicate(),
            list: combine_without_duplication(
                self.list.as_slice(),
                client_list.list.as_slice(),
                add_location,
            ),
        }
    }

    /// Merges the descriptions against the snapshot and adds the client's
    /// songs that the list lacks.
    pub fn merge_with_snapshot(
        &self,
        client_list: &Self,
        snapshot_list: &Self,
        add_location: &AddMusicLocation,
    ) -> (r: Self)
        ensures
            r@ == list_merged_with_snapshot(self@, client_list@, snapshot_list@, *add_location),
    {
        CustomList {
            info: self.info.merge(&client_list.info, &snapshot_list.info),
            list: combine_without_duplication(
                self.list.as_slice(),
                client_list.list.as_slice(),
                add_location,
            ),
        }
    }
}

/// Law: merging a server list with the client's list of the same id keeps
/// the server's description and every song of either side, and keeps the
/// server's songs as they were, in order, before the client's new songs (at
/// the bottom) or after them (at the top).
pub proof fn lemma_list_merge_keeps_songs(current: CustomListView, client: CustomListView, add_location: AddMusicLocation)
    ensures
        list_merged(current, client, add_location).info == current.info,
        forall|id: Seq<char>|
            has_music(current.list, id) || has_music(client.list, id) ==> #[trigger] has_music(
                list_merged(current, client, add_location).list,
                id,
            ),
        add_location == AddMusicLocation::Bottom ==> list_merged(current, client, add_location).list.take(
            current.list.len() as int,
        ) == current.list,
        add_location == AddMusicLocation::Top ==> ({
            let r = list_merged(current, client, add_location).list;
            r.len() >= current.list.len() && r.skip(r.len() - current.list.len()) == current.list
        }),
{
    lemma_combined_music_keeps(current.list, client.list, add_location);
}

/// Law: merging a server list with the client's list against the
/// snapshot's keeps the list's id and position time, and every song of
/// either side, with the server's songs in order before the client's new
/// songs (at the bottom) or after them (at the top).
pub proof fn lemma_list_merge_with_snapshot_keeps_songs(
    current: CustomListView,
    client: CustomListView,
    snapshot: CustomListView,
    add_location: AddMusicLocation,
)
    ensures
        list_merged_with_snapshot(current, client, snapshot, add_location).info.id == current.info.id,
        list_merged_with_snapshot(current, client, snapshot, add_location).info.location_update_time
            == current.info.location_update_time,
        forall|id: Seq<char>|
            has_music(current.list, id) || has_music(client.list, id) ==> #[trigger] has_music(
                list_merged_with_snapshot(current, client, snapshot, add_location).list,
                id,
            ),
        add_location == AddMusicLocation::Bottom ==> list_merged_with_snapshot(
            current,
            client,
            snapshot,
            add_location,
        ).list.take(current.list.len() as int) == current.list,
        add_location == AddMusicLocation::Top ==> ({
            let r = list_merged_with_snapshot(current, client, snapshot, add_location).list;
            r.len() >= current.list.len() && r.skip(r.len() - current.list.len()) == current.list
        }),
{
    lemma_combined_music_keeps(current.list, client.list, add_location);
}

/// Law: the three-way merge of a list's description. Each field (name,
/// source, source list id) that the server left as the snapshot had it
/// takes the client's value; a field the client left as the snapshot had
/// it keeps the server's value; a field the server changed keeps the
/// server's value; and every merged field is the server's or the client's.
/// The id and the position time are the server's.
pub proof fn lemma_info_merge_three_way(current: CustomListInfo, client: CustomListInfo, snapshot: CustomListInfo)
    ensures
        ({
            let m = merged_info(current, client, snapshot);
            &&& m.id == current.id
            &&& m.location_update_time == current.location_update_time
            &&& current.name@ == snapshot.name@ ==> m.name@ == client.name@
            &&& client.name@ == snapshot.name@ ==> m.name@ == current.name@
            &&& current.name@ != snapshot.name@ ==> m.name@ == current.name@
            &&& current.source == snapshot.source ==> m.source == client.source
            &&& client.source == snapshot.source ==> m.source == current.source
            &&& current.source != snapshot.source ==> m.source == current.source
            &&& opt_view(current.source_list_id) == opt_view(snapshot.source_list_id) ==> opt_view(
                m.source_list_id,
            ) == opt_view(client.source_list_id)
            &&& opt_view(client.source_list_id) == opt_view(snapshot.source_list_id) ==> opt_view(
                m.source_list_id,
            ) == opt_view(current.source_list_id)
            &&& opt_view(current.source_list_id) != opt_view(snapshot.source_list_id) ==> opt_view(
                m.source_list_id,
            ) == opt_view(current.source_list_id)
        }),
{
}

} // verus!

