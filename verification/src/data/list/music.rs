//! Songs in a list, and the three-way merge of two song lists.
use vstd::prelude::*;
use crate::data::config::AddMusicLocation;

verus! {

/// The platform a song comes from.
#[derive(Clone, Copy, Debug, PartialEq, Eq, Structural)]
pub enum MusicSource {
    KW,
    KG,
    TX,
    WY,
    MG,
    Local,
}

/// A song in a list. Only the id takes part in syncing; `interval` and
/// `meta` hold the client's JSON text and are carried through unchanged.
pub struct MusicInfo {
    pub id: String,
    pub name: String,
    pub singer: String,
    pub source: MusicSource,
    pub interval: String,
    pub meta: String,
}

impl MusicInfo {
    /// The song's id.
    pub fn get_id(&self) -> (r: &str)
        ensures
            r@ == self.id@,
    {
        self.id.as_str()
    }

    /// A copy of the song's id.
    pub fn take_id(&self) -> (r: String)
        ensures
            r@ == self.id@,
    {
        self.id.clone()
    }

    /// A copy of the song.
    pub fn duplicate(&self) -> (r: Self)
        ensures
            r == *self,
    {
        MusicInfo {
            id: self.id.clone(),
            name: self.name.clone(),
            singer: self.singer.clone(),
            source: self.source,
            interval: self.interval.clone(),
            meta: self.meta.clone(),
        }
    }
}

/// Whether some song of `s` has the id `id`.
pub open spec fn has_music(s: Seq<MusicInfo>, id: Seq<char>) -> bool {
    exists|i: int| 0 <= i < s.len() && (#[trigger] s[i]).id@ == id
}

/// A song is deleted when the last synced state had it and one side no
/// longer has it.
pub open spec fn music_deleted(
    id: Seq<char>,
    current: Seq<MusicInfo>,
    client: Seq<MusicInfo>,
    snapshot: Seq<MusicInfo>,
) -> bool {
    has_music(snapshot, id) && (!has_music(current, id) || !has_music(client, id))
}

/// The songs of the server's list that a merge keeps: those not deleted.
pub open spec fn kept_music(current: Seq<MusicInfo>, client: Seq<MusicInfo>, snapshot: Seq<MusicInfo>) -> Seq<MusicInfo> {
    current.filter(|m: MusicInfo| !music_deleted(m.id@, current, client, snapshot))
}

/// The songs that a merge takes from the client: those neither deleted nor
/// already on the server.
pub open spec fn new_music(current: Seq<MusicInfo>, client: Seq<MusicInfo>, snapshot: Seq<MusicInfo>) -> Seq<MusicInfo> {
    client.filter(
        |m: MusicInfo| !music_deleted(m.id@, current, client, snapshot) && !has_music(current, m.id@),
    )
}

/// The three-way merge of a song list: the kept songs of the server, with
/// the client's new songs before or after them.
pub open spec fn merged_music(
    current: Seq<MusicInfo>,
    client: Seq<MusicInfo>,
    snapshot: Seq<MusicInfo>,
    add_location: AddMusicLocation,
) -> Seq<MusicInfo> {
    match add_location {
        AddMusicLocation::Top => new_music(current, client, snapshot) + kept_music(
            current,
            client,
            snapshot,
        ),
        AddMusicLocation::Bottom => kept_music(current, client, snapshot) + new_music(
            current,
            client,
            snapshot,
        ),
    }
}

/// The songs of both lists without repeating the server's: the merge with
/// nothing deleted.
pub open spec fn combined_music(
    current: Seq<MusicInfo>,
    client: Seq<MusicInfo>,
    add_location: AddMusicLocation,
) -> Seq<MusicInfo> {
    merged_music(current, client, Seq::empty(), add_location)
}

/// Lemma: one more element in a prefix adds it to the filtered prefix when
/// it passes the test.
pub proof fn lemma_filter_take_step<A>(s: Seq<A>, i: int, p: spec_fn(A) -> bool)
    requires
        0 <= i < s.len(),
    ensures
        s.take(i + 1).filter(p) == (if p(s[i]) {
            s.take(i).filter(p).push(s[i])
        } else {
            s.take(i).filter(p)
        }),
{
    reveal(Seq::filter);
    assert(s.take(i + 1).drop_last() =~= s.take(i));
}

/// Whether a song of `s` has the id `id`.
pub fn contains_music(s: &[MusicInfo], id: &String) -> (r: bool)
    ensures
        r == has_music(s@, id@),
{
    let mut i: usize = 0;
    while i < s.len()
        invariant
            i <= s@.len(),
            forall|k: int| 0 <= k < i ==> (#[trigger] s@[k]).id@ != id@,
        decreases s@.len() - i,
    {
        if s[i].id == *id {
            assert(s@[i as int].id@ == id@);
            return true;
        }
        i = i + 1;
    }
    false
}

/// Whether a song with this id is deleted by the merge.
fn is_music_deleted(id: &String, current: &[MusicInfo], client: &[MusicInfo], snapshot: &[MusicInfo]) -> (r: bool)
    ensures
        r == music_deleted(id@, current@, client@, snapshot@),
{
    contains_music(snapshot, id) && (!contains_music(current, id) || !contains_music(client, id))
}

/// The three-way merge of a song list: songs deleted on either side since
/// the snapshot go, songs only the client has come in at `add_location`,
/// and the server's order is kept.
pub fn merge_vec(
    current: &[MusicInfo],
    client: &[MusicInfo],
    snapshot: &[MusicInfo],
    add_location: &AddMusicLocation,
) -> (r: Vec<MusicInfo>)
    ensures
        r@ == merged_music(current@, client@, snapshot@, *add_location),
{
    let ghost keep_pred = |m: MusicInfo| !music_deleted(m.id@, current@, client@, snapshot@);
    let ghost new_pred = |m: MusicInfo|
        !music_deleted(m.id@, current@, client@, snapshot@) && !has_music(current@, m.id@);
    let mut kept: Vec<MusicInfo> = Vec::new();
    let mut i: usize = 0;
    while i < current.len()
        invariant
            i <= current@.len(),
            keep_pred == (|m: MusicInfo| !music_deleted(m.id@, current@, client@, snapshot@)),
            kept@ == current@.take(i as int).filter(keep_pred),
        decreases current@.len() - i,
    {
        proof {
            lemma_filter_take_step(current@, i as int, keep_pred);
            assert(keep_pred(current@[i as int]) == !music_deleted(
                current@[i as int].id@,
                current@,
                client@,
                snapshot@,
            ));
        }
        if !is_music_deleted(&current[i].id, current, client, snapshot) {
            kept.push(current[i].duplicate());
        }
        i = i + 1;
    }
    assert(current@.take(current@.len() as int) =~= current@);
    let mut added: Vec<MusicInfo> = Vec::new();
    let mut j: usize = 0;
    while j < client.len()
        invariant
            j <= client@.len(),
            new_pred == (|m: MusicInfo|
                !music_deleted(m.id@, current@, client@, snapshot@) && !has_music(current@, m.id@)),
            added@ == client@.take(j as int).filter(new_pred),
        decreases client@.len() - j,
    {
        proof {
            lemma_filter_take_step(client@, j as int, new_pred);
            assert(new_pred(client@[j as int]) == (!music_deleted(
                client@[j as int].id@,
                current@,
                client@,
                snapshot@,
            ) && !has_music(current@, client@[j as int].id@)));
        }
        let id = &client[j].id;
        if !is_music_deleted(id, current, client, snapshot) && !contains_music(current, id) {
            added.push(client[j].duplicate());
        }
        j = j + 1;
    }
    assert(client@.take(client@.len() as int) =~= client@);
    match add_location {
        AddMusicLocation::Top => {
            added.append(&mut kept);
            added
        },
        AddMusicLocation::Bottom => {
            kept.append(&mut added);
            kept
        },
    }
}

/// The songs of both lists without repeating the server's ones.
pub fn combine_without_duplication(
    current: &[MusicInfo],
    client: &[MusicInfo],
    add_location: &AddMusicLocation,
) -> (r: Vec<MusicInfo>)
    ensures
        r@ == combined_music(current@, client@, *add_location),
{
    let empty: Vec<MusicInfo> = Vec::new();
    merge_vec(current, client, empty.as_slice(), add_location)
}

/// Law: a song deleted on either side since the snapshot is not in the
/// merged list.
pub proof fn lemma_merge_vec_deletes(
    current: Seq<MusicInfo>,
    client: Seq<MusicInfo>,
    snapshot: Seq<MusicInfo>,
    add_location: AddMusicLocation,
    id: Seq<char>,
)
    requires
        music_deleted(id, current, client, snapshot),
    ensures
        !has_music(merged_music(current, client, snapshot, add_location), id),
{
    let keep_pred = |m: MusicInfo| !music_deleted(m.id@, current, client, snapshot);
    let new_pred = |m: MusicInfo|
        !music_deleted(m.id@, current, client, snapshot) && !has_music(current, m.id@);
    let kept = current.filter(keep_pred);
    let added = client.filter(new_pred);
    broadcast use vstd::seq_lib::group_filter_ensures;
    let r = merged_music(current, client, snapshot, add_location);
    assert forall|i: int| 0 <= i < r.len() implies (#[trigger] r[i]).id@ != id by {
        match add_location {
            AddMusicLocation::Top => {
                if i < added.len() {
                    assert(new_pred(added[i]));
                } else {
                    assert(keep_pred(kept[i - added.len()]));
                }
            },
            AddMusicLocation::Bottom => {
                if i < kept.len() {
                    assert(keep_pred(kept[i]));
                } else {
                    assert(new_pred(added[i - kept.len()]));
                }
            },
        }
    }
}

/// Law: a song that both sides still have, or that one side added since
/// the snapshot, is in the merged list.
pub proof fn lemma_merge_vec_keeps(
    current: Seq<MusicInfo>,
    client: Seq<MusicInfo>,
    snapshot: Seq<MusicInfo>,
    add_location: AddMusicLocation,
    id: Seq<char>,
)
    requires
        has_music(current, id) || has_music(client, id),
        !music_deleted(id, current, client, snapshot),
    ensures
        has_music(merged_music(current, client, snapshot, add_location), id),
{
    let keep_pred = |m: MusicInfo| !music_deleted(m.id@, current, client, snapshot);
    let new_pred = |m: MusicInfo|
        !music_deleted(m.id@, current, client, snapshot) && !has_music(current, m.id@);
    let kept = current.filter(keep_pred);
    let added = client.filter(new_pred);
    broadcast use vstd::seq_lib::group_filter_ensures;
    let r = merged_music(current, client, snapshot, add_location);
    if has_music(current, id) {
        let k = choose|k: int| 0 <= k < current.len() && (#[trigger] current[k]).id@ == id;
        assert(keep_pred(current[k]));
        assert(kept.contains(current[k]));
        let j = choose|j: int| 0 <= j < kept.len() && kept[j] == current[k];
        match add_location {
            AddMusicLocation::Top => {
                assert(r[added.len() + j] == kept[j]);
            },
            AddMusicLocation::Bottom => {
                assert(r[j] == kept[j]);
            },
        }
    } else {
        let k = choose|k: int| 0 <= k < client.len() && (#[trigger] client[k]).id@ == id;
        assert(new_pred(client[k]));
        assert(added.contains(client[k]));
        let j = choose|j: int| 0 <= j < added.len() && added[j] == client[k];
        match add_location {
            AddMusicLocation::Top => {
                assert(r[j] == added[j]);
            },
            AddMusicLocation::Bottom => {
                assert(r[kept.len() + j] == added[j]);
            },
        }
    }
}

/// Lemma: a filter that every element passes keeps the sequence.
proof fn lemma_filter_all<A>(s: Seq<A>, p: spec_fn(A) -> bool)
    requires
        forall|i: int| 0 <= i < s.len() ==> p(#[trigger] s[i]),
    ensures
        s.filter(p) == s,
    decreases s.len(),
{
    reveal(Seq::filter);
    if s.len() > 0 {
        lemma_filter_all(s.drop_last(), p);
        assert(p(s[s.len() - 1]));
        assert(s.drop_last().push(s.last()) =~= s);
    }
}

/// Lemma: a filter that no element passes leaves nothing.
proof fn lemma_filter_none<A>(s: Seq<A>, p: spec_fn(A) -> bool)
    requires
        forall|i: int| 0 <= i < s.len() ==> !p(#[trigger] s[i]),
    ensures
        s.filter(p) == Seq::<A>::empty(),
    decreases s.len(),
{
    reveal(Seq::filter);
    if s.len() > 0 {
        lemma_filter_none(s.drop_last(), p);
        assert(!p(s[s.len() - 1]));
    }
}

/// Law: where the client's songs are those of its last sync (it changed
/// nothing since), the merge keeps the server's list as it is.
pub proof fn lemma_merge_vec_unchanged_client(
    current: Seq<MusicInfo>,
    client: Seq<MusicInfo>,
    snapshot: Seq<MusicInfo>,
    add_location: AddMusicLocation,
)
    requires
        forall|id: Seq<char>| has_music(client, id) <==> has_music(snapshot, id),
    ensures
        merged_music(current, client, snapshot, add_location) == current,
{
    let keep_pred = |m: MusicInfo| !music_deleted(m.id@, current, client, snapshot);
    let new_pred = |m: MusicInfo|
        !music_deleted(m.id@, current, client, snapshot) && !has_music(current, m.id@);
    assert forall|i: int| 0 <= i < current.len() implies keep_pred(#[trigger] current[i]) by {
        assert(has_music(current, current[i].id@));
        if has_music(snapshot, current[i].id@) {
            assert(has_music(client, current[i].id@));
        }
    }
    assert forall|i: int| 0 <= i < client.len() implies !new_pred(#[trigger] client[i]) by {
        assert(has_music(client, client[i].id@));
        assert(has_music(snapshot, client[i].id@));
    }
    lemma_filter_all(current, keep_pred);
    lemma_filter_none(client, new_pred);
    assert(kept_music(current, client, snapshot) == current);
    assert(new_music(current, client, snapshot) == Seq::<MusicInfo>::empty());
    match add_location {
        AddMusicLocation::Top => {
            assert(Seq::<MusicInfo>::empty() + current =~= current);
        },
        AddMusicLocation::Bottom => {
            assert(current + Seq::<MusicInfo>::empty() =~= current);
        },
    }
}

/// Law: combining the client's songs into the server's keeps every song of
/// either side, and keeps the server's songs as they were, in order, before
/// the client's new songs (at the bottom) or after them (at the top).
pub proof fn lemma_combined_music_keeps(current: Seq<MusicInfo>, client: Seq<MusicInfo>, add_location: AddMusicLocation)
    ensures
        forall|id: Seq<char>|
            has_music(current, id) || has_music(client, id) ==> #[trigger] has_music(
                combined_music(current, client, add_location),
                id,
            ),
        combined_music(current, client, add_location).len() >= current.len(),
        add_location == AddMusicLocation::Bottom ==> combined_music(current, client, add_location).take(
            current.len() as int,
        ) == current,
        add_location == AddMusicLocation::Top ==> ({
            let r = combined_music(current, client, add_location);
            r.skip(r.len() - current.len()) == current
        }),
{
    let empty = Seq::<MusicInfo>::empty();
    assert forall|id: Seq<char>| has_music(current, id) || has_music(client, id) implies #[trigger] has_music(
        combined_music(current, client, add_location),
        id,
    ) by {
        lemma_merge_vec_keeps(current, client, empty, add_location, id);
    }
    let keep_pred = |m: MusicInfo| !music_deleted(m.id@, current, client, empty);
    assert forall|i: int| 0 <= i < current.len() implies keep_pred(#[trigger] current[i]) by {}
    lemma_filter_all(current, keep_pred);
    assert(kept_music(current, client, empty) == current);
    let added = new_music(current, client, empty);
    let r = combined_music(current, client, add_location);
    match add_location {
        AddMusicLocation::Bottom => {
            assert(r == current + added);
            assert(r.take(current.len() as int) =~= current);
        },
        AddMusicLocation::Top => {
            assert(r == added + current);
            assert(r.skip(r.len() - current.len()) =~= current);
        },
    }
}

} // verus!

