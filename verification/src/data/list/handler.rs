//! The changes a client sends to the server's lists.
use vstd::prelude::*;
use crate::data::list::custom_list::{CustomList, CustomListInfo, CustomListView, lists_view};
use crate::data::list::music::{MusicInfo, lemma_filter_take_step};
use crate::data::list::{ListData, ListDataView, first_list_index, has_list, is_first_list_index, first_list_position};

verus! {

/// A change to the lists that a client sends.
pub enum ListSyncAction {
    /// All lists replaced by the client's.
    ListDataOverwrite(ListData),
    /// New lists at a position.
    ListCreate { position: i64, infos: Vec<CustomListInfo> },
    /// Lists removed by id.
    ListRemove(Vec<u64>),
    /// New descriptions of lists, matched by id.
    ListUpdate(Vec<CustomListInfo>),
}

/// The position where new lists go: a negative one counts as 0, one past
/// the end as the end.
pub open spec fn create_position(position: i64, len: nat) -> int {
    let p: int = if position < 0 || position > usize::MAX {
        0
    } else {
        position as int
    };
    if p >= len {
        len as int
    } else {
        p
    }
}

/// An empty list with the given description.
pub open spec fn empty_list(info: CustomListInfo) -> CustomListView {
    CustomListView { info, list: seq![] }
}

/// The new lists of a create action: those whose id no list has yet, empty.
pub open spec fn created_lists(lists: Seq<CustomListView>, infos: Seq<CustomListInfo>) -> Seq<CustomListView> {
    infos.filter(|info: CustomListInfo| !has_list(lists, info.id)).map_values(
        |info: CustomListInfo| empty_list(info),
    )
}

/// The lists after a create action.
pub open spec fn lists_after_create(
    lists: Seq<CustomListView>,
    position: i64,
    infos: Seq<CustomListInfo>,
) -> Seq<CustomListView> {
    let p = create_position(position, lists.len());
    lists.take(p) + created_lists(lists, infos) + lists.skip(p)
}

/// The lists after a remove action: with one id, the first list with it
/// goes; with several ids (or none), every list with one of them goes.
pub open spec fn lists_after_remove(lists: Seq<CustomListView>, ids: Seq<u64>) -> Seq<CustomListView> {
    if ids.len() == 1 {
        match first_list_index(lists, ids[0]) {
            Some(p) => lists.remove(p),
            None => lists,
        }
    } else {
        lists.filter(|l: CustomListView| !ids.contains(l.info.id))
    }
}

/// `i` is the last position of a description with the id `id`.
pub open spec fn is_last_info_index(infos: Seq<CustomListInfo>, id: u64, i: int) -> bool {
    &&& 0 <= i < infos.len()
    &&& infos[i].id == id
    &&& forall|j: int| i < j < infos.len() ==> (#[trigger] infos[j]).id != id
}

/// The last description with the id `id`: the one that a map built from
/// the descriptions in order keeps.
pub open spec fn last_info(infos: Seq<CustomListInfo>, id: u64) -> Option<CustomListInfo> {
    if exists|i: int| is_last_info_index(infos, id, i) {
        Some(infos[choose|i: int| is_last_info_index(infos, id, i)])
    } else {
        None
    }
}

/// The lists after an update action: the first list with each id takes the
/// last description with that id; the songs stay.
pub open spec fn lists_after_update(lists: Seq<CustomListView>, infos: Seq<CustomListInfo>) -> Seq<CustomListView> {
    Seq::new(
        lists.len(),
        |j: int|
            if is_first_list_index(lists, lists[j].info.id, j) && last_info(
                infos,
                lists[j].info.id,
            ) is Some {
                CustomListView { info: last_info(infos, lists[j].info.id)->Some_0, list: lists[j].list }
            } else {
                lists[j]
            },
    )
}

/// The position of the last description with the id `id`.
fn last_info_position(infos: &Vec<CustomListInfo>, id: u64) -> (r: Option<usize>)
    ensures
        r matches Some(i) ==> i < infos@.len() && last_info(infos@, id) == Some(infos@[i as int]),
        r is None ==> last_info(infos@, id) is None,
{
    let mut found: Option<usize> = None;
    let mut i: usize = 0;
    while i < infos.len()
        invariant
            i <= infos@.len(),
            found matches Some(k) ==> k < i && infos@[k as int].id == id && forall|j: int|
                k < j < i ==> (#[trigger] infos@[j]).id != id,
            found is None ==> forall|j: int| 0 <= j < i ==> (#[trigger] infos@[j]).id != id,
        decreases infos@.len() - i,
    {
        if infos[i].id == id {
            found = Some(i);
        }
        i = i + 1;
    }
    match found {
        Some(k) => {
            assert(is_last_info_index(infos@, id, k as int));
            assert forall|m: int| is_last_info_index(infos@, id, m) implies m == k by {
                if m < k {
                    assert(infos@[k as int].id == id);
                }
            }
        },
        None => {},
    }
    found
}

/// Whether `ids` holds `id`.
fn contains_id(ids: &Vec<u64>, id: u64) -> (r: bool)
    ensures
        r == ids@.contains(id),
{
    let mut i: usize = 0;
    while i < ids.len()
        invariant
            i <= ids@.len(),
            forall|k: int| 0 <= k < i ==> ids@[k] != id,
        decreases ids@.len() - i,
    {
        if ids[i] == id {
            assert(ids@[i as int] == id);
            return true;
        }
        i = i + 1;
    }
    false
}

impl ListData {
    /// Replaces all lists with the client's.
    pub fn on_list_data_overwrite(&mut self, data: ListData)
        ensures
            final(self)@ == data@,
    {
        *self = data;
    }

    /// Adds empty lists with the given descriptions at `position`, leaving
    /// out those whose id a list has already.
    pub fn on_list_create(&mut self, position: i64, infos: Vec<CustomListInfo>)
        ensures
            final(self)@.default == old(self)@.default,
            final(self)@.love == old(self)@.love,
            final(self)@.custom_lists == lists_after_create(
                old(self)@.custom_lists,
                position,
                infos@,
            ),
    {
        let ghost lists = lists_view(self.custom_lists@);
        let len = self.custom_lists.len();
        let start: usize = if position < 0 || position as i128 > usize::MAX as i128 {
            0
        } else {
            position as usize
        };
        let p = if start >= len {
            len
        } else {
            start
        };
        assert(p == create_position(position, lists.len()));
        let ghost keep = |info: CustomListInfo| !has_list(lists, info.id);
        let ghost f = |info: CustomListInfo| empty_list(info);
        let mut created: Vec<CustomList> = Vec::new();
        let mut i: usize = 0;
        while i < infos.len()
            invariant
                i <= infos@.len(),
                lists == lists_view(self.custom_lists@),
                keep == (|info: CustomListInfo| !has_list(lists, info.id)),
                f == (|info: CustomListInfo| empty_list(info)),
                lists_view(created@) == infos@.take(i as int).filter(keep).map_values(f),
            decreases infos@.len() - i,
        {
            proof {
                lemma_filter_take_step(infos@, i as int, keep);
            }
            let ghost before = infos@.take(i as int).filter(keep);
            if first_list_position(&self.custom_lists, infos[i].id).is_none() {
                let list = CustomList { info: infos[i].duplicate(), list: Vec::new() };
                assert(list@ == f(infos@[i as int]));
                assert(before.push(infos@[i as int]).map_values(f) =~= before.map_values(f).push(
                    list@,
                ));
                created.push(list);
            }
            assert(lists_view(created@) =~= infos@.take(i + 1).filter(keep).map_values(f));
            i = i + 1;
        }
        assert(infos@.take(infos@.len() as int) =~= infos@);
        let mut tail = self.custom_lists.split_off(p);
        self.custom_lists.append(&mut created);
        self.custom_lists.append(&mut tail);
        assert(lists_view(self.custom_lists@) =~= lists_after_create(lists, position, infos@));
    }

    /// Removes lists by id: with one id, the first list with it; with
    /// several, every list with one of them.
    pub fn on_list_remove(&mut self, ids: Vec<u64>)
        ensures
            final(self)@.default == old(self)@.default,
            final(self)@.love == old(self)@.love,
            final(self)@.custom_lists == lists_after_remove(old(self)@.custom_lists, ids@),
    {
        let ghost lists = lists_view(self.custom_lists@);
        if ids.len() == 1 {
            match first_list_position(&self.custom_lists, ids[0]) {
                Some(p) => {
                    self.custom_lists.remove(p);
                    assert(lists_view(self.custom_lists@) =~= lists.remove(p as int));
                },
                None => {},
            }
        } else {
            let ghost keep = |l: CustomListView| !ids@.contains(l.info.id);
            let mut kept: Vec<CustomList> = Vec::new();
            let mut i: usize = 0;
            while i < self.custom_lists.len()
                invariant
                    i <= self.custom_lists@.len(),
                    lists == lists_view(self.custom_lists@),
                    keep == (|l: CustomListView| !ids@.contains(l.info.id)),
                    lists_view(kept@) == lists.take(i as int).filter(keep),
                decreases self.custom_lists@.len() - i,
            {
                proof {
                    lemma_filter_take_step(lists, i as int, keep);
                }
                if !contains_id(&ids, self.custom_lists[i].info.id) {
                    let l = self.custom_lists[i].duplicate();
                    kept.push(l);
                }
                assert(lists_view(kept@) =~= lists.take(i + 1).filter(keep));
                i = i + 1;
            }
            assert(lists.take(lists.len() as int) =~= lists);
            self.custom_lists = kept;
        }
    }

    /// Gives lists new descriptions by id: the first list with an id takes
    /// the last description with that id.
    pub fn on_list_update(&mut self, infos: Vec<CustomListInfo>)
        ensures
            final(self)@.default == old(self)@.default,
            final(self)@.love == old(self)@.love,
            final(self)@.custom_lists == lists_after_update(old(self)@.custom_lists, infos@),
    {
        let ghost lists = lists_view(self.custom_lists@);
        let ghost target = lists_after_update(lists, infos@);
        let mut updated: Vec<CustomList> = Vec::new();
        let mut i: usize = 0;
        while i < self.custom_lists.len()
            invariant
                i <= self.custom_lists@.len(),
                lists == lists_view(self.custom_lists@),
                target == lists_after_update(lists, infos@),
                lists_view(updated@) == target.take(i as int),
            decreases self.custom_lists@.len() - i,
        {
            let id = self.custom_lists[i].info.id;
            let first = first_list_position(&self.custom_lists, id);
            let is_first = match first {
                Some(k) => k == i,
                None => false,
            };
            proof {
                if is_first {
                    assert(is_first_list_index(lists, id, i as int));
                } else {
                    if is_first_list_index(lists, id, i as int) {
                        assert(first_list_index(lists, id) == Some(i as int));
                    }
                }
            }
            let l = if is_first {
                match last_info_position(&infos, id) {
                    Some(k) => CustomList {
                        info: infos[k].duplicate(),
                        list: crate::data::list::custom_list::clone_music_vec(
                            &self.custom_lists[i].list,
                        ),
                    },
                    None => self.custom_lists[i].duplicate(),
                }
            } else {
                self.custom_lists[i].duplicate()
            };
            assert(l@ == target[i as int]);
            let ghost before = updated@;
            updated.push(l);
            assert(lists_view(updated@) =~= lists_view(before).push(target[i as int]));
            assert(target.take(i + 1) =~= target.take(i as int).push(target[i as int]));
            assert(lists_view(updated@) =~= target.take(i + 1));
            i = i + 1;
        }
        assert(target.take(target.len() as int) =~= target);
        self.custom_lists = updated;
    }

    /// Applies a change that a client sent.
    pub fn on(&mut self, action: ListSyncAction)
        ensures
            match action {
                ListSyncAction::ListDataOverwrite(data) => final(self)@ == data@,
                ListSyncAction::ListCreate { position, infos } => final(self)@ == ListDataView {
                    custom_lists: lists_after_create(old(self)@.custom_lists, position, infos@),
                    ..old(self)@
                },
                ListSyncAction::ListRemove(ids) => final(self)@ == ListDataView {
                    custom_lists: lists_after_remove(old(self)@.custom_lists, ids@),
                    ..old(self)@
                },
                ListSyncAction::ListUpdate(infos) => final(self)@ == ListDataView {
                    custom_lists: lists_after_update(old(self)@.custom_lists, infos@),
                    ..old(self)@
                },
            },
    {
        match action {
            ListSyncAction::ListDataOverwrite(data) => self.on_list_data_overwrite(data),
            ListSyncAction::ListCreate { position, infos } => self.on_list_create(position, infos),
            ListSyncAction::ListRemove(ids) => self.on_list_remove(ids),
            ListSyncAction::ListUpdate(infos) => self.on_list_update(infos),
        }
    }
}

/// Law: after creating lists, an id has a list exactly when it had one
/// before or one of the new descriptions has it.
pub proof fn lemma_create_adds(lists: Seq<CustomListView>, position: i64, infos: Seq<CustomListInfo>, id: u64)
    ensures
        has_list(lists_after_create(lists, position, infos), id) <==> has_list(lists, id) || exists|k: int|
            0 <= k < infos.len() && (#[trigger] infos[k]).id == id,
{
    let keep = |info: CustomListInfo| !has_list(lists, info.id);
    let f = |info: CustomListInfo| empty_list(info);
    let kept = infos.filter(keep);
    let created = created_lists(lists, infos);
    broadcast use vstd::seq_lib::group_filter_ensures;
    let p = create_position(position, lists.len());
    let r = lists_after_create(lists, position, infos);
    assert(created.len() == kept.len());
    if has_list(lists, id) {
        let k = choose|k: int| 0 <= k < lists.len() && (#[trigger] lists[k]).info.id == id;
        if k < p {
            assert(r[k] == lists[k]);
        } else {
            assert(r[k + created.len()] == lists[k]);
        }
    } else if exists|k: int| 0 <= k < infos.len() && (#[trigger] infos[k]).id == id {
        let k = choose|k: int| 0 <= k < infos.len() && (#[trigger] infos[k]).id == id;
        assert(keep(infos[k]));
        assert(kept.contains(infos[k]));
        let j = choose|j: int| 0 <= j < kept.len() && kept[j] == infos[k];
        assert(r[p + j] == created[j]);
    }
    if has_list(r, id) {
        let k = choose|k: int| 0 <= k < r.len() && (#[trigger] r[k]).info.id == id;
        if k < p {
            assert(r[k] == lists[k]);
        } else if k >= p + created.len() {
            assert(r[k] == lists[k - created.len()]);
        } else {
            let j = k - p;
            assert(created[j] == f(kept[j]));
            assert(kept.contains(kept[j]));
            infos.lemma_filter_contains_rev(keep, kept[j]);
        }
    }
}

/// Law: after removing several ids, no list has one of them.
pub proof fn lemma_remove_many(lists: Seq<CustomListView>, ids: Seq<u64>, id: u64)
    requires
        ids.len() != 1,
        ids.contains(id),
    ensures
        !has_list(lists_after_remove(lists, ids), id),
{
    let keep = |l: CustomListView| !ids.contains(l.info.id);
    broadcast use vstd::seq_lib::group_filter_ensures;
    let r = lists_after_remove(lists, ids);
    assert forall|k: int| 0 <= k < r.len() implies (#[trigger] r[k]).info.id != id by {
        assert(keep(r[k]));
    }
}

} // verus!
