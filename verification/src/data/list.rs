//! Playlists: the default list, the loved list and the user's own lists,
//! and how a client's copy is merged into the server's.
pub mod custom_list;
pub mod handler;
pub mod music;

use vstd::prelude::*;
use vstd::utf8::*;
use crate::text::{decimal, parse_u64, unsigned_digits, all_digits, is_digit_byte, digits_value, ascii_bytes, push_char, push_decimal, slice_from, lemma_digits_value_decimal, lemma_decimal_digits};
use crate::data::config::AddMusicLocation;
use crate::data::list::custom_list::{CustomList, CustomListInfo, CustomListView, lists_view, list_merged, list_merged_with_snapshot, lemma_list_merge_keeps_songs, lemma_list_merge_with_snapshot_keeps_songs};
use crate::data::list::music::{MusicInfo, merge_vec, merged_music, lemma_filter_take_step, has_music};

verus! {

/// All playlists of a user.
pub struct ListData {
    pub default: Vec<MusicInfo>,
    pub love: Vec<MusicInfo>,
    pub custom_lists: Vec<CustomList>,
}

/// All playlists of a user as a value.
pub struct ListDataView {
    pub default: Seq<MusicInfo>,
    pub love: Seq<MusicInfo>,
    pub custom_lists: Seq<CustomListView>,
}

impl View for ListData {
    type V = ListDataView;

    open spec fn view(&self) -> ListDataView {
        ListDataView {
            default: self.default@,
            love: self.love@,
            custom_lists: lists_view(self.custom_lists@),
        }
    }
}

// ------------------------------------------------------------------------
// Finding lists by id
// ------------------------------------------------------------------------

/// Whether some list of `s` has the id `id`.
pub open spec fn has_list(s: Seq<CustomListView>, id: u64) -> bool {
    exists|i: int| 0 <= i < s.len() && (#[trigger] s[i]).info.id == id
}

/// `i` is the first position of a list with the id `id`.
pub open spec fn is_first_list_index(s: Seq<CustomListView>, id: u64, i: int) -> bool {
    &&& 0 <= i < s.len()
    &&& s[i].info.id == id
    &&& forall|j: int| 0 <= j < i ==> (#[trigger] s[j]).info.id != id
}

/// The first position of a list with the id `id`, as `position` finds it.
pub open spec fn first_list_index(s: Seq<CustomListView>, id: u64) -> Option<int> {
    if exists|i: int| is_first_list_index(s, id, i) {
        Some(choose|i: int| is_first_list_index(s, id, i))
    } else {
        None
    }
}

/// `i` is the last position of a list with the id `id`.
pub open spec fn is_last_list_index(s: Seq<CustomListView>, id: u64, i: int) -> bool {
    &&& 0 <= i < s.len()
    &&& s[i].info.id == id
    &&& forall|j: int| i < j < s.len() ==> (#[trigger] s[j]).info.id != id
}

/// The last list with the id `id`: the one that a map built from the lists
/// in order keeps for that id.
pub open spec fn last_list(s: Seq<CustomListView>, id: u64) -> Option<CustomListView> {
    if exists|i: int| is_last_list_index(s, id, i) {
        Some(s[choose|i: int| is_last_list_index(s, id, i)])
    } else {
        None
    }
}

/// A list is deleted when the last synced state had it and one side no
/// longer has it.
pub open spec fn list_deleted(
    id: u64,
    current: Seq<CustomListView>,
    client: Seq<CustomListView>,
    snapshot: Seq<CustomListView>,
) -> bool {
    has_list(snapshot, id) && (!has_list(current, id) || !has_list(client, id))
}

/// A server list merged with the client's list of the same id, if the
/// client has one: with the snapshot's list the descriptions are merged,
/// without it the server's description stays; the songs are combined.
pub open spec fn merged_entry(
    l: CustomListView,
    client: Seq<CustomListView>,
    snapshot: Seq<CustomListView>,
    add_location: AddMusicLocation,
) -> CustomListView {
    match last_list(client, l.info.id) {
        None => l,
        Some(c) => match last_list(snapshot, l.info.id) {
            None => list_merged(l, c, add_location),
            Some(s) => list_merged_with_snapshot(l, c, s, add_location),
        },
    }
}

/// The server's lists that are not deleted, each merged with the client's.
pub open spec fn surviving_lists(
    current: Seq<CustomListView>,
    client: Seq<CustomListView>,
    snapshot: Seq<CustomListView>,
    add_location: AddMusicLocation,
) -> Seq<CustomListView> {
    current.filter(|l: CustomListView| !list_deleted(l.info.id, current, client, snapshot)).map_values(
        |l: CustomListView| merged_entry(l, client, snapshot, add_location),
    )
}

/// A missing position time counts as 0.
pub open spec fn time_or_zero(t: Option<u128>) -> u128 {
    match t {
        Some(v) => v,
        None => 0,
    }
}

/// The list with its position time set.
pub open spec fn with_time(l: CustomListView, t: u128) -> CustomListView {
    CustomListView {
        info: CustomListInfo { location_update_time: Some(t), ..l.info },
        ..l
    }
}

/// Places the client's lists from the `i`-th on into `lists`, one at a
/// time. A deleted one is skipped. A new one goes to the client's position
/// if it has a position time, else to the end. One that is there already
/// moves to the client's position if the client's position time is later,
/// and keeps the server's time. `None` where a list would go past the end
/// of `lists`, where the vector insertion would panic.
pub open spec fn place_client_lists(
    lists: Seq<CustomListView>,
    i: nat,
    current: Seq<CustomListView>,
    client: Seq<CustomListView>,
    snapshot: Seq<CustomListView>,
) -> Option<Seq<CustomListView>>
    decreases client.len() - i,
{
    if i >= client.len() {
        Some(lists)
    } else {
        let c = client[i as int];
        let next = (i + 1) as nat;
        if list_deleted(c.info.id, current, client, snapshot) {
            place_client_lists(lists, next, current, client, snapshot)
        } else {
            let t = time_or_zero(c.info.location_update_time);
            match first_list_index(lists, c.info.id) {
                None => if t > 0 {
                    if i <= lists.len() {
                        place_client_lists(lists.insert(i as int, c), next, current, client, snapshot)
                    } else {
                        None
                    }
                } else {
                    place_client_lists(lists.push(c), next, current, client, snapshot)
                },
                Some(p) => {
                    let ct = time_or_zero(lists[p].info.location_update_time);
                    if ct >= t {
                        place_client_lists(lists, next, current, client, snapshot)
                    } else {
                        let rest = lists.remove(p);
                        if i <= rest.len() {
                            place_client_lists(
                                rest.insert(i as int, with_time(lists[p], ct)),
                                next,
                                current,
                                client,
                                snapshot,
                            )
                        } else {
                            None
                        }
                    }
                },
            }
        }
    }
}

/// The user's lists after a merge; `None` where the merge would panic.
pub open spec fn merged_custom_lists(
    current: Seq<CustomListView>,
    client: Seq<CustomListView>,
    snapshot: Seq<CustomListView>,
    add_location: AddMusicLocation,
) -> Option<Seq<CustomListView>> {
    place_client_lists(
        surviving_lists(current, client, snapshot, add_location),
        0,
        current,
        client,
        snapshot,
    )
}

/// The position of the first list with the id `id`.
pub fn first_list_position(s: &Vec<CustomList>, id: u64) -> (r: Option<usize>)
    ensures
        r matches Some(i) ==> first_list_index(lists_view(s@), id) == Some(i as int),
        r is None ==> first_list_index(lists_view(s@), id) is None && !has_list(
            lists_view(s@),
            id,
        ),
{
    let ghost v = lists_view(s@);
    let mut i: usize = 0;
    while i < s.len()
        invariant
            i <= s@.len(),
            v == lists_view(s@),
            forall|j: int| 0 <= j < i ==> (#[trigger] v[j]).info.id != id,
        decreases s@.len() - i,
    {
        if s[i].info.id == id {
            assert(is_first_list_index(v, id, i as int));
            assert forall|k: int| is_first_list_index(v, id, k) implies k == i by {
                if k < i {
                } else if k > i {
                    assert(v[i as int].info.id == id);
                }
            }
            return Some(i);
        }
        i = i + 1;
    }
    proof {
        false_first(v, id);
    }
    None
}

proof fn false_first(v: Seq<CustomListView>, id: u64)
    requires
        forall|j: int| 0 <= j < v.len() ==> (#[trigger] v[j]).info.id != id,
    ensures
        first_list_index(v, id) is None,
        !has_list(v, id),
{
}

/// The position of the last list with the id `id`.
pub fn last_list_position(s: &Vec<CustomList>, id: u64) -> (r: Option<usize>)
    ensures
        r matches Some(i) ==> i < s@.len() && last_list(lists_view(s@), id) == Some(
            lists_view(s@)[i as int],
        ),
        r is None ==> last_list(lists_view(s@), id) is None && !has_list(lists_view(s@), id),
{
    let ghost v = lists_view(s@);
    let mut found: Option<usize> = None;
    let mut i: usize = 0;
    while i < s.len()
        invariant
            i <= s@.len(),
            v == lists_view(s@),
            found matches Some(k) ==> k < i && v[k as int].info.id == id && forall|j: int|
                k < j < i ==> (#[trigger] v[j]).info.id != id,
            found is None ==> forall|j: int| 0 <= j < i ==> (#[trigger] v[j]).info.id != id,
        decreases s@.len() - i,
    {
        if s[i].info.id == id {
            found = Some(i);
        }
        i = i + 1;
    }
    match found {
        Some(k) => {
            assert(is_last_list_index(v, id, k as int));
            assert forall|m: int| is_last_list_index(v, id, m) implies m == k by {
                if m < k {
                    assert(v[k as int].info.id == id);
                } else if m > k {
                }
            }
        },
        None => {},
    }
    found
}

/// Whether a list with this id is deleted by the merge.
fn is_list_deleted(id: u64, current: &Vec<CustomList>, client: &Vec<CustomList>, snapshot: &Vec<CustomList>) -> (r: bool)
    ensures
        r == list_deleted(id, lists_view(current@), lists_view(client@), lists_view(snapshot@)),
{
    first_list_position(snapshot, id).is_some() && (first_list_position(current, id).is_none()
        || first_list_position(client, id).is_none())
}

/// A server list merged with the client's list of the same id.
fn merge_entry(
    l: &CustomList,
    client: &Vec<CustomList>,
    snapshot: &Vec<CustomList>,
    add_location: &AddMusicLocation,
) -> (r: CustomList)
    ensures
        r@ == merged_entry(l@, lists_view(client@), lists_view(snapshot@), *add_location),
{
    match last_list_position(client, l.id()) {
        None => l.duplicate(),
        Some(c) => match last_list_position(snapshot, l.id()) {
            None => l.merge(&client[c], add_location),
            Some(s) => l.merge_with_snapshot(&client[c], &snapshot[s], add_location),
        },
    }
}

/// The user's lists after merging the client's into the server's; `None`
/// where the merge would insert past the end of the vector.
pub fn merge_custom_lists(
    current: &Vec<CustomList>,
    client: &Vec<CustomList>,
    snapshot: &Vec<CustomList>,
    add_location: &AddMusicLocation,
) -> (r: Option<Vec<CustomList>>)
    ensures
        r is Some <==> merged_custom_lists(
            lists_view(current@),
            lists_view(client@),
            lists_view(snapshot@),
            *add_location,
        ) is Some,
        r matches Some(v) ==> lists_view(v@) == merged_custom_lists(
            lists_view(current@),
            lists_view(client@),
            lists_view(snapshot@),
            *add_location,
        )->Some_0,
{
    let ghost cur = lists_view(current@);
    let ghost cli = lists_view(client@);
    let ghost snap = lists_view(snapshot@);
    let ghost keep = |l: CustomListView| !list_deleted(l.info.id, cur, cli, snap);
    let ghost f = |l: CustomListView| merged_entry(l, cli, snap, *add_location);
    let mut lists: Vec<CustomList> = Vec::new();
    let mut i: usize = 0;
    while i < current.len()
        invariant
            i <= current@.len(),
            cur == lists_view(current@),
            cli == lists_view(client@),
            snap == lists_view(snapshot@),
            keep == (|l: CustomListView| !list_deleted(l.info.id, cur, cli, snap)),
            f == (|l: CustomListView| merged_entry(l, cli, snap, *add_location)),
            lists_view(lists@) == cur.take(i as int).filter(keep).map_values(f),
        decreases current@.len() - i,
    {
        proof {
            lemma_filter_take_step(cur, i as int, keep);
        }
        let l = &current[i];
        if !is_list_deleted(l.id(), current, client, snapshot) {
            let m = merge_entry(l, client, snapshot, add_location);
            assert(cur[i as int] == l@);
            assert(keep(cur[i as int]));
            assert(f(cur[i as int]) == m@);
            let ghost before = cur.take(i as int).filter(keep);
            assert(before.push(cur[i as int]).map_values(f) =~= before.map_values(f).push(m@));
            lists.push(m);
            assert(lists_view(lists@) =~= cur.take(i + 1).filter(keep).map_values(f));
        } else {
            assert(lists_view(lists@) =~= cur.take(i + 1).filter(keep).map_values(f));
        }
        i = i + 1;
    }
    assert(cur.take(current@.len() as int) =~= cur);
    let ghost target = merged_custom_lists(cur, cli, snap, *add_location);
    let mut index: usize = 0;
    while index < client.len()
        invariant
            index <= client@.len(),
            cur == lists_view(current@),
            cli == lists_view(client@),
            snap == lists_view(snapshot@),
            target == merged_custom_lists(cur, cli, snap, *add_location),
            target == place_client_lists(lists_view(lists@), index as nat, cur, cli, snap),
        decreases client@.len() - index,
    {
        let c = &client[index];
        let ghost lv = lists_view(lists@);
        if !is_list_deleted(c.id(), current, client, snapshot) {
            let t = match c.info.location_update_time {
                Some(v) => v,
                None => 0,
            };
            match first_list_position(&lists, c.id()) {
                None => {
                    if t > 0 {
                        if index <= lists.len() {
                            lists.insert(index, c.duplicate());
                            assert(lists_view(lists@) =~= lv.insert(index as int, cli[index as int]));
                        } else {
                            return None;
                        }
                    } else {
                        lists.push(c.duplicate());
                        assert(lists_view(lists@) =~= lv.push(cli[index as int]));
                    }
                },
                Some(p) => {
                    let ct = match lists[p].info.location_update_time {
                        Some(v) => v,
                        None => 0,
                    };
                    if ct < t {
                        let mut moved = lists.remove(p);
                        moved.info.location_update_time = Some(ct);
                        assert(moved@ == with_time(lv[p as int], ct));
                        assert(lists_view(lists@) =~= lv.remove(p as int));
                        if index <= lists.len() {
                            lists.insert(index, moved);
                            assert(lists_view(lists@) =~= lv.remove(p as int).insert(
                                index as int,
                                with_time(lv[p as int], ct),
                            ));
                        } else {
                            return None;
                        }
                    }
                },
            }
        }
        index = index + 1;
    }
    Some(lists)
}

/// Lemma: a list that has the id has a first position with it.
proof fn lemma_first_list_exists(s: Seq<CustomListView>, id: u64, k: int)
    requires
        0 <= k < s.len(),
        s[k].info.id == id,
    ensures
        exists|i: int| is_first_list_index(s, id, i),
    decreases k,
{
    if exists|j: int| 0 <= j < k && (#[trigger] s[j]).info.id == id {
        let j = choose|j: int| 0 <= j < k && (#[trigger] s[j]).info.id == id;
        lemma_first_list_exists(s, id, j);
    } else {
        assert(is_first_list_index(s, id, k));
    }
}

/// Lemma: what `first_list_index` says of a sequence.
proof fn lemma_first_list_index(s: Seq<CustomListView>, id: u64)
    ensures
        first_list_index(s, id) matches Some(p) ==> 0 <= p < s.len() && s[p].info.id == id,
        first_list_index(s, id) is None ==> !has_list(s, id),
{
    if has_list(s, id) {
        let k = choose|k: int| 0 <= k < s.len() && (#[trigger] s[k]).info.id == id;
        lemma_first_list_exists(s, id, k);
    }
}

/// Lemma: the ids of the lists after inserting one.
proof fn lemma_has_list_insert(s: Seq<CustomListView>, i: int, c: CustomListView, id: u64)
    requires
        0 <= i <= s.len(),
    ensures
        has_list(s.insert(i, c), id) == (has_list(s, id) || c.info.id == id),
{
    let t = s.insert(i, c);
    if has_list(s, id) {
        let k = choose|k: int| 0 <= k < s.len() && (#[trigger] s[k]).info.id == id;
        if k < i {
            assert(t[k] == s[k]);
        } else {
            assert(t[k + 1] == s[k]);
        }
    }
    if c.info.id == id {
        assert(t[i] == c);
    }
    if has_list(t, id) {
        let k = choose|k: int| 0 <= k < t.len() && (#[trigger] t[k]).info.id == id;
        if k < i {
            assert(t[k] == s[k]);
        } else if k > i {
            assert(t[k] == s[k - 1]);
        }
    }
}

/// Lemma: the ids of the lists after removing one.
proof fn lemma_has_list_remove(s: Seq<CustomListView>, p: int, id: u64)
    requires
        0 <= p < s.len(),
    ensures
        has_list(s, id) ==> has_list(s.remove(p), id) || s[p].info.id == id,
        has_list(s.remove(p), id) ==> has_list(s, id),
{
    let t = s.remove(p);
    if has_list(s, id) && s[p].info.id != id {
        let k = choose|k: int| 0 <= k < s.len() && (#[trigger] s[k]).info.id == id;
        if k < p {
            assert(t[k] == s[k]);
        } else {
            assert(t[k - 1] == s[k]);
        }
    }
    if has_list(t, id) {
        let k = choose|k: int| 0 <= k < t.len() && (#[trigger] t[k]).info.id == id;
        if k < p {
            assert(t[k] == s[k]);
        } else {
            assert(t[k] == s[k + 1]);
        }
    }
}

/// No list of `s` has an id that the merge deletes.
pub open spec fn none_deleted(
    s: Seq<CustomListView>,
    current: Seq<CustomListView>,
    client: Seq<CustomListView>,
    snapshot: Seq<CustomListView>,
) -> bool {
    forall|j: int| 0 <= j < s.len() ==> !list_deleted((#[trigger] s[j]).info.id, current, client, snapshot)
}

proof fn lemma_place(
    lists: Seq<CustomListView>,
    i: nat,
    current: Seq<CustomListView>,
    client: Seq<CustomListView>,
    snapshot: Seq<CustomListView>,
)
    requires
        place_client_lists(lists, i, current, client, snapshot) is Some,
    ensures
        ({
            let r = place_client_lists(lists, i, current, client, snapshot)->Some_0;
            &&& forall|id: u64| has_list(lists, id) ==> #[trigger] has_list(r, id)
            &&& forall|k: int|
                i <= k < client.len() && !list_deleted(client[k].info.id, current, client, snapshot)
                    ==> has_list(r, (#[trigger] client[k]).info.id)
            &&& none_deleted(lists, current, client, snapshot) ==> none_deleted(
                r,
                current,
                client,
                snapshot,
            )
            &&& forall|id: u64| #[trigger] has_list(r, id) ==> has_list(lists, id) || exists|k: int|
                i <= k < client.len() && (#[trigger] client[k]).info.id == id
        }),
    decreases client.len() - i,
{
    if i < client.len() {
        let c = client[i as int];
        let next = (i + 1) as nat;
        lemma_first_list_index(lists, c.info.id);
        if list_deleted(c.info.id, current, client, snapshot) {
            lemma_place(lists, next, current, client, snapshot);
        } else {
            let t = time_or_zero(c.info.location_update_time);
            match first_list_index(lists, c.info.id) {
                None => {
                    let l2 = if t > 0 {
                        lists.insert(i as int, c)
                    } else {
                        lists.push(c)
                    };
                    if t == 0 {
                        assert(lists.push(c) =~= lists.insert(lists.len() as int, c));
                    }
                    let pos = if t > 0 {
                        i as int
                    } else {
                        lists.len() as int
                    };
                    assert forall|id: u64| has_list(l2, id) == (has_list(lists, id) || c.info.id == id) by {
                        lemma_has_list_insert(lists, pos, c, id);
                    }
                    assert(l2[pos] == c);
                    lemma_place(l2, next, current, client, snapshot);
                    if none_deleted(lists, current, client, snapshot) {
                        assert forall|j: int| 0 <= j < l2.len() implies !list_deleted(
                            (#[trigger] l2[j]).info.id,
                            current,
                            client,
                            snapshot,
                        ) by {
                            if j < pos {
                                assert(l2[j] == lists[j]);
                            } else if j > pos {
                                assert(l2[j] == lists[j - 1]);
                            }
                        }
                    }
                },
                Some(p) => {
                    let ct = time_or_zero(lists[p].info.location_update_time);
                    if ct >= t {
                        lemma_place(lists, next, current, client, snapshot);
                    } else {
                        let rest = lists.remove(p);
                        let moved = with_time(lists[p], ct);
                        let l2 = rest.insert(i as int, moved);
                        assert forall|id: u64| has_list(l2, id) == has_list(lists, id) by {
                            lemma_has_list_remove(lists, p, id);
                            lemma_has_list_insert(rest, i as int, moved, id);
                        }
                        lemma_place(l2, next, current, client, snapshot);
                        if none_deleted(lists, current, client, snapshot) {
                            assert forall|j: int| 0 <= j < l2.len() implies !list_deleted(
                                (#[trigger] l2[j]).info.id,
                                current,
                                client,
                                snapshot,
                            ) by {
                                if j < i {
                                    assert(l2[j] == rest[j]);
                                } else if j > i {
                                    assert(l2[j] == rest[j - 1]);
                                }
                                if j != i {
                                    let jj = if j < i { j } else { j - 1 };
                                    if jj < p {
                                        assert(rest[jj] == lists[jj]);
                                    } else {
                                        assert(rest[jj] == lists[jj + 1]);
                                    }
                                }
                            }
                        }
                    }
                },
            }
        }
        let r = place_client_lists(lists, i, current, client, snapshot)->Some_0;
        assert forall|id: u64| #[trigger] has_list(r, id) implies has_list(lists, id) || exists|k: int|
            i <= k < client.len() && (#[trigger] client[k]).info.id == id by {
            let r2 = place_client_lists(lists, i, current, client, snapshot)->Some_0;
            if !has_list(lists, id) && c.info.id != id {
                let k = choose|k: int| next <= k < client.len() && (#[trigger] client[k]).info.id == id;
                assert(i <= k);
            }
        }
    }
}

/// Law: after a merge of the user's lists, no list has an id that was
/// deleted on either side since the snapshot, every list that one side
/// has and that was not deleted is there, and every list came from one of
/// the two sides.
pub proof fn lemma_merge_custom_lists(
    current: Seq<CustomListView>,
    client: Seq<CustomListView>,
    snapshot: Seq<CustomListView>,
    add_location: AddMusicLocation,
    id: u64,
)
    requires
        merged_custom_lists(current, client, snapshot, add_location) is Some,
    ensures
        ({
            let r = merged_custom_lists(current, client, snapshot, add_location)->Some_0;
            &&& list_deleted(id, current, client, snapshot) ==> !has_list(r, id)
            &&& (has_list(current, id) || has_list(client, id)) && !list_deleted(
                id,
                current,
                client,
                snapshot,
            ) ==> has_list(r, id)
            &&& has_list(r, id) ==> has_list(current, id) || has_list(client, id)
        }),
{
    let keep = |l: CustomListView| !list_deleted(l.info.id, current, client, snapshot);
    let f = |l: CustomListView| merged_entry(l, client, snapshot, add_location);
    let kept = current.filter(keep);
    let s = kept.map_values(f);
    broadcast use vstd::seq_lib::group_filter_ensures;
    assert forall|j: int| 0 <= j < s.len() implies (#[trigger] s[j]).info.id == kept[j].info.id by {
        let l = kept[j];
        match last_list(client, l.info.id) {
            None => {},
            Some(c) => match last_list(snapshot, l.info.id) {
                None => {},
                Some(sn) => {},
            },
        }
    }
    assert(none_deleted(s, current, client, snapshot)) by {
        assert forall|j: int| 0 <= j < s.len() implies !list_deleted(
            (#[trigger] s[j]).info.id,
            current,
            client,
            snapshot,
        ) by {
            assert(keep(kept[j]));
        }
    }
    lemma_place(s, 0, current, client, snapshot);
    let r = merged_custom_lists(current, client, snapshot, add_location)->Some_0;
    if list_deleted(id, current, client, snapshot) && has_list(r, id) {
        let k = choose|k: int| 0 <= k < r.len() && (#[trigger] r[k]).info.id == id;
        assert(!list_deleted(r[k].info.id, current, client, snapshot));
    }
    if has_list(current, id) && !list_deleted(id, current, client, snapshot) {
        let k = choose|k: int| 0 <= k < current.len() && (#[trigger] current[k]).info.id == id;
        assert(keep(current[k]));
        assert(kept.contains(current[k]));
        let j = choose|j: int| 0 <= j < kept.len() && kept[j] == current[k];
        assert(s[j].info.id == id);
        assert(has_list(s, id));
    }
    if has_list(client, id) && !list_deleted(id, current, client, snapshot) {
        let k = choose|k: int| 0 <= k < client.len() && (#[trigger] client[k]).info.id == id;
        assert(has_list(r, client[k].info.id));
    }
    if has_list(r, id) && !has_list(client, id) {
        if has_list(s, id) {
            let j = choose|j: int| 0 <= j < s.len() && (#[trigger] s[j]).info.id == id;
            assert(kept[j].info.id == id);
            assert(kept.contains(kept[j]));
            current.lemma_filter_contains_rev(keep, kept[j]);
            assert(current.contains(kept[j]));
        } else {
            let k = choose|k: int| 0 <= k < client.len() && (#[trigger] client[k]).info.id == id;
        }
    }
}

// ------------------------------------------------------------------------
// List ids as the client spells them
// ------------------------------------------------------------------------

/// The bytes of `default`.
pub open spec fn default_word() -> Seq<u8> {
    seq![100u8, 101u8, 102u8, 97u8, 117u8, 108u8, 116u8]
}

/// The bytes of `love`.
pub open spec fn love_word() -> Seq<u8> {
    seq![108u8, 111u8, 118u8, 101u8]
}

/// The characters of `userlist_`.
pub open spec fn userlist_prefix() -> Seq<char> {
    seq!['u', 's', 'e', 'r', 'l', 'i', 's', 't', '_']
}

/// The bytes of `userlist_`.
pub open spec fn userlist_bytes() -> Seq<u8> {
    seq![117u8, 115u8, 101u8, 114u8, 108u8, 105u8, 115u8, 116u8, 95u8]
}

/// Whether a spelling starts with `userlist_`.
pub open spec fn has_userlist_prefix(raw: Seq<u8>) -> bool {
    raw.len() >= 9 && raw.take(9) == userlist_bytes()
}

/// The id a spelling stands for: `default` is 0, `love` is 1, and
/// `userlist_<n>` is `n`; `None` for any other spelling.
pub open spec fn list_id_of(raw: Seq<u8>) -> Option<u64> {
    if raw == default_word() {
        Some(0)
    } else if raw == love_word() {
        Some(1)
    } else if has_userlist_prefix(raw) {
        parse_u64(raw.skip(9))
    } else {
        None
    }
}

/// A list id that could not be read.
#[derive(Debug, Clone, Copy, PartialEq, Eq, Structural)]
pub enum ListIdError {
    /// Neither `default`, `love`, nor `userlist_` and more.
    UnknownName,
    /// `userlist_` followed by something that is not a `u64`.
    NotANumber,
}

/// Reads a decimal number from bytes as `u64::from_str` does.
pub fn parse_u64_bytes(b: &[u8]) -> (r: Option<u64>)
    ensures
        r == parse_u64(b@),
{
    let start: usize = if b.len() > 0 && b[0] == 43 {
        1
    } else {
        0
    };
    let ghost d = unsigned_digits(b@);
    assert(d =~= b@.skip(start as int));
    if start >= b.len() {
        return None;
    }
    let mut acc: u64 = 0;
    let mut i: usize = start;
    while i < b.len()
        invariant
            start <= i <= b@.len(),
            d == unsigned_digits(b@),
            d =~= b@.skip(start as int),
            forall|k: int| 0 <= k < i - start ==> is_digit_byte(#[trigger] d[k]),
            acc == digits_value(d.take(i - start)),
        decreases b@.len() - i,
    {
        let c = b[i];
        proof {
            assert(d.take(i - start + 1).drop_last() =~= d.take(i - start));
            assert(d[i - start] == c);
        }
        if c < 48 || c > 57 {
            assert(!is_digit_byte(d[i - start]));
            assert(!all_digits(d));
            assert(parse_u64(b@) is None);
            return None;
        }
        let digit = (c - 48) as u64;
        if acc > (u64::MAX - digit) / 10 {
            proof {
                assert(digits_value(d.take(i - start + 1)) == acc * 10 + digit);
                assert(acc * 10 + digit > u64::MAX);
                lemma_digits_prefix(d, i - start + 1);
                assert(parse_u64(b@) is None);
            }
            return None;
        }
        acc = acc * 10 + digit;
        i = i + 1;
    }
    assert(d.take(i - start) =~= d);
    Some(acc)
}

/// Lemma: all digits spell at least what a prefix of them spells.
proof fn lemma_digits_prefix(d: Seq<u8>, k: int)
    requires
        0 <= k <= d.len(),
    ensures
        all_digits(d) ==> digits_value(d) >= digits_value(d.take(k)),
    decreases d.len() - k,
{
    if k < d.len() {
        lemma_digits_prefix(d, k + 1);
        assert(d.take(k + 1).drop_last() =~= d.take(k));
    } else {
        assert(d.take(k) =~= d);
    }
}

/// Reads a list id as the client spells it: `default` is 0, `love` is 1,
/// and `userlist_<n>` is `n`; any other spelling is an error.
pub fn de_list_id(raw: &str) -> (r: Result<u64, ListIdError>)
    ensures
        r matches Ok(v) ==> list_id_of(encode_utf8(raw@)) == Some(v),
        r is Err <==> list_id_of(encode_utf8(raw@)) is None,
        r == Err::<u64, ListIdError>(ListIdError::UnknownName) <==> (encode_utf8(raw@) != default_word()
            && encode_utf8(raw@) != love_word() && !has_userlist_prefix(encode_utf8(raw@))),
{
    let b = raw.as_bytes();
    if b.len() == 7 && b[0] == 100 && b[1] == 101 && b[2] == 102 && b[3] == 97 && b[4] == 117
        && b[5] == 108 && b[6] == 116 {
        assert(b@ =~= default_word());
        return Ok(0);
    }
    if b.len() == 4 && b[0] == 108 && b[1] == 111 && b[2] == 118 && b[3] == 101 {
        assert(b@ =~= love_word());
        return Ok(1);
    }
    if !(b.len() >= 9 && b[0] == 117 && b[1] == 115 && b[2] == 101 && b[3] == 114 && b[4] == 108
        && b[5] == 105 && b[6] == 115 && b[7] == 116 && b[8] == 95) {
        assert(!has_userlist_prefix(b@)) by {
            if has_userlist_prefix(b@) {
                assert(b@.take(9)[0] == b@[0] && b@.take(9)[1] == b@[1] && b@.take(9)[2] == b@[2]);
                assert(b@.take(9)[3] == b@[3] && b@.take(9)[4] == b@[4] && b@.take(9)[5] == b@[5]);
                assert(b@.take(9)[6] == b@[6] && b@.take(9)[7] == b@[7] && b@.take(9)[8] == b@[8]);
            }
        }
        return Err(ListIdError::UnknownName);
    }
    assert(b@.take(9) =~= userlist_bytes());
    assert(b@ != default_word() && b@ != love_word());
    let rest = slice_from(b, 9);
    match parse_u64_bytes(rest) {
        Some(v) => Ok(v),
        None => Err(ListIdError::NotANumber),
    }
}


/// Spells a list id as `userlist_<id>`.
pub fn se_list_id(id: u64) -> (r: String)
    ensures
        r@ == userlist_prefix() + decimal(id as nat),
{
    let mut out = String::new();
    push_char(&mut out, 'u');
    push_char(&mut out, 's');
    push_char(&mut out, 'e');
    push_char(&mut out, 'r');
    push_char(&mut out, 'l');
    push_char(&mut out, 'i');
    push_char(&mut out, 's');
    push_char(&mut out, 't');
    push_char(&mut out, '_');
    assert(out@ =~= userlist_prefix());
    push_decimal(&mut out, id);
    out
}

/// Law: reading back the spelling of a list id gives the id.
pub proof fn lemma_list_id_roundtrip(id: u64)
    ensures
        list_id_of(encode_utf8(userlist_prefix() + decimal(id as nat))) == Some(id),
{
    let s = userlist_prefix() + decimal(id as nat);
    lemma_decimal_digits(id as nat);
    lemma_digits_value_decimal(id as nat);
    assert(is_ascii_chars(s)) by {
        assert forall|i: int| 0 <= i < s.len() implies '\0' <= #[trigger] s[i] <= '\u{7f}' by {
            if i >= 9 {
                assert(s[i] == decimal(id as nat)[i - 9]);
                assert('0' <= decimal(id as nat)[i - 9] <= '9');
            } else {
                assert(s[i] == userlist_prefix()[i]);
            }
        }
    }
    is_ascii_chars_encode_utf8(s);
    let b = encode_utf8(s);
    encode_utf8_valid_utf8(s);
    assert(b.len() >= 10);
    assert(b[9] == s[9] as u8);
    assert(s[9] == decimal(id as nat)[0]);
    assert(b.take(9) =~= userlist_bytes()) by {
        assert forall|i: int| 0 <= i < 9 implies b.take(9)[i] == userlist_bytes()[i] by {
            assert(s[i] == userlist_prefix()[i]);
        }
    }
    assert(b.skip(9) =~= ascii_bytes(decimal(id as nat))) by {
        assert forall|i: int| 0 <= i < b.skip(9).len() implies b.skip(9)[i] == ascii_bytes(decimal(id as nat))[i] by {
            assert(s[i + 9] == decimal(id as nat)[i]);
        }
    }
    assert(b != default_word()) by {
        assert(b[0] == 117);
    }
    assert(b != love_word()) by {
        assert(b[0] == 117);
    }
    let d = b.skip(9);
    assert(d.len() > 0);
    if d.len() > 0 && d[0] == 43 {
        assert(is_digit_byte(d[0]));
    }
}

impl ListData {
    /// Whether all three kinds of list are empty.
    pub fn is_empty(&self) -> (r: bool)
        ensures
            r == (self.default@.len() == 0 && self.love@.len() == 0 && self.custom_lists@.len()
                == 0),
    {
        self.default.len() == 0 && self.love.len() == 0 && self.custom_lists.len() == 0
    }

    /// Whether merging `client` into these lists against `snapshot` goes
    /// through without an insertion past the end of the user's lists.
    pub open spec fn can_merge(
        self,
        client: ListDataView,
        snapshot: ListDataView,
        add_location: AddMusicLocation,
    ) -> bool {
        merged_custom_lists(
            self@.custom_lists,
            client.custom_lists,
            snapshot.custom_lists,
            add_location,
        ) is Some
    }

    /// The three-way merge of a client's lists into the server's against
    /// the lists of the client's last sync: per list, what was deleted on
    /// either side goes, what was added on either side stays.
    pub fn merge(&mut self, client: &Self, snapshot: &Self, add_location: &AddMusicLocation)
        requires
            old(self).can_merge(client@, snapshot@, *add_location),
        ensures
            final(self)@.default == merged_music(
                old(self)@.default,
                client@.default,
                snapshot@.default,
                *add_location,
            ),
            final(self)@.love == merged_music(
                old(self)@.love,
                client@.love,
                snapshot@.love,
                *add_location,
            ),
            final(self)@.custom_lists == merged_custom_lists(
                old(self)@.custom_lists,
                client@.custom_lists,
                snapshot@.custom_lists,
                *add_location,
            )->Some_0,
    {
        let merged = self.merge_checked(client, snapshot, add_location);
    }

    /// The merge, where it goes through; `false` and the lists unchanged
    /// where it would insert past the end of the user's lists.
    pub fn merge_checked(&mut self, client: &Self, snapshot: &Self, add_location: &AddMusicLocation) -> (r: bool)
        ensures
            r == old(self).can_merge(client@, snapshot@, *add_location),
            !r ==> final(self)@ == old(self)@,
            r ==> final(self)@.default == merged_music(
                old(self)@.default,
                client@.default,
                snapshot@.default,
                *add_location,
            ),
            r ==> final(self)@.love == merged_music(
                old(self)@.love,
                client@.love,
                snapshot@.love,
                *add_location,
            ),
            r ==> final(self)@.custom_lists == merged_custom_lists(
                old(self)@.custom_lists,
                client@.custom_lists,
                snapshot@.custom_lists,
                *add_location,
            )->Some_0,
    {
        let custom_lists = merge_custom_lists(
            &self.custom_lists,
            &client.custom_lists,
            &snapshot.custom_lists,
            add_location,
        );
        match custom_lists {
            None => false,
            Some(lists) => {
                self.default = merge_vec(
                    self.default.as_slice(),
                    client.default.as_slice(),
                    snapshot.default.as_slice(),
                    add_location,
                );
                self.love = merge_vec(
                    self.love.as_slice(),
                    client.love.as_slice(),
                    snapshot.love.as_slice(),
                    add_location,
                );
                self.custom_lists = lists;
                true
            },
        }
    }
}

/// Law: in a merge, a server list that the client also has keeps every song
/// of the server's list and of the client's list with that id, and keeps
/// its id and position time.
pub proof fn lemma_merged_entry_keeps_songs(
    l: CustomListView,
    client: Seq<CustomListView>,
    snapshot: Seq<CustomListView>,
    add_location: AddMusicLocation,
)
    requires
        last_list(client, l.info.id) is Some,
    ensures
        ({
            let c = last_list(client, l.info.id)->Some_0;
            let m = merged_entry(l, client, snapshot, add_location);
            &&& m.info.id == l.info.id
            &&& m.info.location_update_time == l.info.location_update_time
            &&& forall|id: Seq<char>|
                has_music(l.list, id) || has_music(c.list, id) ==> #[trigger] has_music(m.list, id)
        }),
{
    let c = last_list(client, l.info.id)->Some_0;
    lemma_list_merge_keeps_songs(l, c, add_location);
    if last_list(snapshot, l.info.id) is Some {
        lemma_list_merge_with_snapshot_keeps_songs(
            l,
            c,
            last_list(snapshot, l.info.id)->Some_0,
            add_location,
        );
    }
}

/// Whether no client list from the `i`-th on has a position time.
pub open spec fn untimed_from(client: Seq<CustomListView>, i: int) -> bool {
    forall|j: int| i <= j < client.len() ==> time_or_zero((#[trigger] client[j]).info.location_update_time) == 0
}

/// Lemma: placing client lists that have no position time goes through,
/// keeps the lists already placed as they are at the front, and leaves
/// every placed client list that is not deleted among the lists.
proof fn lemma_place_untimed(
    lists: Seq<CustomListView>,
    i: nat,
    current: Seq<CustomListView>,
    client: Seq<CustomListView>,
    snapshot: Seq<CustomListView>,
)
    requires
        untimed_from(client, i as int),
    ensures
        place_client_lists(lists, i, current, client, snapshot) is Some,
        ({
            let r = place_client_lists(lists, i, current, client, snapshot)->Some_0;
            &&& r.len() >= lists.len()
            &&& r.take(lists.len() as int) == lists
            &&& forall|j: int|
                i <= j < client.len() && !list_deleted((#[trigger] client[j]).info.id, current, client, snapshot)
                    ==> has_list(r, client[j].info.id)
        }),
    decreases client.len() - i,
{
    if i < client.len() {
        let c = client[i as int];
        let next = (i + 1) as nat;
        assert(untimed_from(client, next as int));
        if list_deleted(c.info.id, current, client, snapshot) {
            lemma_place_untimed(lists, next, current, client, snapshot);
        } else {
            assert(time_or_zero(c.info.location_update_time) == 0);
            match first_list_index(lists, c.info.id) {
                None => {
                    let l2 = lists.push(c);
                    lemma_place_untimed(l2, next, current, client, snapshot);
                    let r = place_client_lists(l2, next, current, client, snapshot)->Some_0;
                    assert(r.take(l2.len() as int) == l2);
                    assert(r.take(lists.len() as int) =~= lists) by {
                        assert forall|k: int| 0 <= k < lists.len() implies r.take(lists.len() as int)[k]
                            == lists[k] by {
                            assert(r.take(l2.len() as int)[k] == l2[k]);
                        }
                    }
                    assert(r[lists.len() as int] == c) by {
                        assert(r.take(l2.len() as int)[lists.len() as int] == l2[lists.len() as int]);
                    }
                    assert(has_list(r, c.info.id));
                },
                Some(p) => {
                    let ct = time_or_zero(lists[p].info.location_update_time);
                    assert(ct >= 0);
                    lemma_place_untimed(lists, next, current, client, snapshot);
                    let r = place_client_lists(lists, next, current, client, snapshot)->Some_0;
                    assert(is_first_list_index(lists, c.info.id, p));
                    assert(r[p] == lists[p]) by {
                        assert(r.take(lists.len() as int)[p] == lists[p]);
                    }
                    assert(has_list(r, c.info.id));
                },
            }
        }
    }
}

/// Law: where no client list has a position time, the merge goes through,
/// keeps the server's surviving lists first, in their order, and every
/// client list that is not deleted is in the result, the new ones after
/// the server's lists.
pub proof fn lemma_merge_untimed_client_lists(
    current: Seq<CustomListView>,
    client: Seq<CustomListView>,
    snapshot: Seq<CustomListView>,
    add_location: AddMusicLocation,
)
    requires
        forall|j: int|
            0 <= j < client.len() ==> time_or_zero((#[trigger] client[j]).info.location_update_time) == 0,
    ensures
        merged_custom_lists(current, client, snapshot, add_location) is Some,
        ({
            let s = surviving_lists(current, client, snapshot, add_location);
            let r = merged_custom_lists(current, client, snapshot, add_location)->Some_0;
            &&& r.len() >= s.len()
            &&& r.take(s.len() as int) == s
            &&& forall|j: int|
                0 <= j < client.len() && !list_deleted((#[trigger] client[j]).info.id, current, client, snapshot)
                    ==> has_list(r, client[j].info.id)
            &&& forall|j: int|
                0 <= j < client.len() && !list_deleted((#[trigger] client[j]).info.id, current, client, snapshot)
                    && !has_list(s, client[j].info.id) ==> exists|k: int|
                    s.len() <= k < r.len() && r[k].info.id == client[j].info.id
        }),
{
    let s = surviving_lists(current, client, snapshot, add_location);
    assert(untimed_from(client, 0));
    lemma_place_untimed(s, 0, current, client, snapshot);
    let r = merged_custom_lists(current, client, snapshot, add_location)->Some_0;
    assert forall|j: int|
        0 <= j < client.len() && !list_deleted((#[trigger] client[j]).info.id, current, client, snapshot)
            && !has_list(s, client[j].info.id) implies exists|k: int|
            s.len() <= k < r.len() && r[k].info.id == client[j].info.id by {
        assert(has_list(r, client[j].info.id));
        let k = choose|k: int| 0 <= k < r.len() && (#[trigger] r[k]).info.id == client[j].info.id;
        if k < s.len() {
            assert(r.take(s.len() as int)[k] == s[k]);
            assert(has_list(s, client[j].info.id));
        }
    }
}

} // verus!

