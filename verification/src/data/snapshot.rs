//! Which snapshot of a user's data is the latest, and which one each of the
//! user's devices synced last.
use vstd::prelude::*;
use crate::utils::crypto::{MD5, to_md5, be_value, md5_digest};
use crate::data::list::music::lemma_filter_take_step;

verus! {

/// A snapshot is named by the MD5 digest of its serialized data.
pub type SnapshotKey = MD5;

/// The latest snapshot, the snapshot of each device's last sync, by the
/// device's client id (no client id occurs twice), and the keys of the
/// stored snapshots, oldest first.
pub struct SnapshotInfo {
    pub latest_key: Option<SnapshotKey>,
    clients: Vec<(String, SnapshotKey)>,
    snapshots: Vec<SnapshotKey>,
}

/// The snapshot info as a value.
pub struct SnapshotInfoView {
    pub latest_key: Option<SnapshotKey>,
    pub clients: Map<Seq<char>, SnapshotKey>,
    pub snapshots: Seq<SnapshotKey>,
}

/// The test for keys other than `key`.
pub open spec fn other_than(key: SnapshotKey) -> spec_fn(SnapshotKey) -> bool {
    |k: SnapshotKey| k != key
}

/// The keys without `key`.
pub open spec fn without_key(keys: Seq<SnapshotKey>, key: SnapshotKey) -> Seq<SnapshotKey> {
    keys.filter(other_than(key))
}

/// How many of the oldest snapshots go so that at most `max` stay; a limit
/// of 0 keeps them all.
pub open spec fn excess_snapshots(len: nat, max: u64) -> nat {
    if max == 0 || len <= max {
        0
    } else {
        (len - max) as nat
    }
}

/// The keys without `key`, in order.
fn remove_key(keys: &Vec<SnapshotKey>, key: SnapshotKey) -> (r: Vec<SnapshotKey>)
    ensures
        r@ == without_key(keys@, key),
{
    let ghost keep = other_than(key);
    let mut out: Vec<SnapshotKey> = Vec::new();
    let mut i: usize = 0;
    while i < keys.len()
        invariant
            i <= keys@.len(),
            keep == other_than(key),
            out@ == keys@.take(i as int).filter(keep),
        decreases keys@.len() - i,
    {
        proof {
            lemma_filter_take_step(keys@, i as int, keep);
        }
        if keys[i] != key {
            out.push(keys[i]);
        }
        i = i + 1;
    }
    assert(keys@.take(keys@.len() as int) =~= keys@);
    out
}

/// The entries as a map from client id to key.
pub open spec fn entries_map(entries: Seq<(String, SnapshotKey)>) -> Map<Seq<char>, SnapshotKey>
    decreases entries.len(),
{
    if entries.len() == 0 {
        Map::empty()
    } else {
        entries_map(entries.drop_last()).insert(entries.last().0@, entries.last().1)
    }
}

/// No client id occurs twice among the entries.
pub open spec fn unique_ids(entries: Seq<(String, SnapshotKey)>) -> bool {
    forall|i: int, j: int|
        0 <= i < entries.len() && 0 <= j < entries.len() && i != j ==> (#[trigger] entries[i]).0@
            != (#[trigger] entries[j]).0@
}

/// Whether some client's last sync is the snapshot `key`.
pub open spec fn key_in_use(clients: Map<Seq<char>, SnapshotKey>, key: SnapshotKey) -> bool {
    exists|id: Seq<char>| #[trigger] clients.contains_key(id) && clients[id] == key
}

/// The key whose snapshot can be deleted after `id` moves to a new key:
/// the key it had before, if no client has that key any more and it is not
/// the latest snapshot.
pub open spec fn stale_key(
    before: Map<Seq<char>, SnapshotKey>,
    after: Map<Seq<char>, SnapshotKey>,
    id: Seq<char>,
    latest: Option<SnapshotKey>,
) -> Option<SnapshotKey> {
    if before.contains_key(id) && !key_in_use(after, before[id]) && latest != Some(before[id]) {
        Some(before[id])
    } else {
        None
    }
}

/// Lemma: the map of entries with unique ids has entry `i`, and the keys
/// of the map are the ids of the entries.
proof fn lemma_entries_map(entries: Seq<(String, SnapshotKey)>)
    requires
        unique_ids(entries),
    ensures
        forall|i: int|
            0 <= i < entries.len() ==> entries_map(entries).contains_key(#[trigger] entries[i].0@)
                && entries_map(entries)[entries[i].0@] == entries[i].1,
        forall|id: Seq<char>|
            #[trigger] entries_map(entries).contains_key(id) ==> exists|i: int|
                0 <= i < entries.len() && (#[trigger] entries[i]).0@ == id,
    decreases entries.len(),
{
    if entries.len() > 0 {
        let rest = entries.drop_last();
        assert(unique_ids(rest)) by {
            assert forall|i: int, j: int|
                0 <= i < rest.len() && 0 <= j < rest.len() && i != j implies (#[trigger] rest[i]).0@
                != (#[trigger] rest[j]).0@ by {
                assert(rest[i] == entries[i] && rest[j] == entries[j]);
            }
        }
        lemma_entries_map(rest);
        let n = entries.len() - 1;
        assert forall|i: int| 0 <= i < entries.len() implies entries_map(entries).contains_key(
            #[trigger] entries[i].0@,
        ) && entries_map(entries)[entries[i].0@] == entries[i].1 by {
            if i < n {
                assert(rest[i] == entries[i]);
                assert(entries[i].0@ != entries[n].0@);
            }
        }
        assert forall|id: Seq<char>| #[trigger] entries_map(entries).contains_key(id) implies exists|i: int|
            0 <= i < entries.len() && (#[trigger] entries[i]).0@ == id by {
            if id != entries[n].0@ {
                assert(entries_map(rest).contains_key(id));
                let i = choose|i: int| 0 <= i < rest.len() && (#[trigger] rest[i]).0@ == id;
                assert(entries[i] == rest[i]);
            }
        }
    }
}

impl View for SnapshotInfo {
    type V = SnapshotInfoView;

    closed spec fn view(&self) -> SnapshotInfoView {
        SnapshotInfoView {
            latest_key: self.latest_key,
            clients: entries_map(self.clients@),
            snapshots: self.snapshots@,
        }
    }
}

/// The latest snapshot, where there is one, is the newest stored one.
pub open spec fn latest_is_newest(latest: Option<SnapshotKey>, snapshots: Seq<SnapshotKey>) -> bool {
    latest matches Some(k) ==> snapshots.len() > 0 && snapshots.last() == k
}

/// Lemma: taking a key other than the last out of the keys keeps the last.
proof fn lemma_without_other_keeps_last(keys: Seq<SnapshotKey>, x: SnapshotKey)
    requires
        keys.len() > 0,
        keys.last() != x,
    ensures
        without_key(keys, x).len() > 0,
        without_key(keys, x).last() == keys.last(),
{
    reveal(Seq::filter);
    assert(other_than(x)(keys.last()));
}

impl SnapshotInfo {
    /// The info is well formed: no client id occurs twice, and the latest
    /// snapshot is the newest stored one.
    pub closed spec fn wf(&self) -> bool {
        &&& unique_ids(self.clients@)
        &&& latest_is_newest(self.latest_key, self.snapshots@)
    }

    /// Law: in a well-formed info the latest snapshot is the newest stored
    /// one.
    pub proof fn lemma_wf_latest(&self)
        requires
            self.wf(),
        ensures
            latest_is_newest(self@.latest_key, self@.snapshots),
    {
    }

    /// No snapshot and no client yet.
    pub fn new() -> (r: Self)
        ensures
            r.wf(),
            r@.latest_key is None,
            r@.clients == Map::<Seq<char>, SnapshotKey>::empty(),
            r@.snapshots == Seq::<SnapshotKey>::empty(),
    {
        SnapshotInfo { latest_key: None, clients: Vec::new(), snapshots: Vec::new() }
    }

    /// The position of a client's entry.
    fn position(&self, client_id: &String) -> (r: Option<usize>)
        requires
            self.wf(),
        ensures
            r matches Some(i) ==> i < self.clients@.len() && self.clients@[i as int].0@
                == client_id@,
            r is None ==> forall|i: int|
                0 <= i < self.clients@.len() ==> (#[trigger] self.clients@[i]).0@ != client_id@,
    {
        let mut i: usize = 0;
        while i < self.clients.len()
            invariant
                i <= self.clients@.len(),
                forall|k: int| 0 <= k < i ==> (#[trigger] self.clients@[k]).0@ != client_id@,
            decreases self.clients@.len() - i,
        {
            if self.clients[i].0 == *client_id {
                return Some(i);
            }
            i = i + 1;
        }
        None
    }

    /// The key of the snapshot of a client's last sync.
    pub fn get_snapshot_key(&self, client_id: &String) -> (r: Option<SnapshotKey>)
        requires
            self.wf(),
        ensures
            r == (if self@.clients.contains_key(client_id@) {
                Some(self@.clients[client_id@])
            } else {
                None
            }),
    {
        proof {
            lemma_entries_map(self.clients@);
        }
        match self.position(client_id) {
            Some(i) => Some(self.clients[i].1),
            None => {
                assert(!self@.clients.contains_key(client_id@));
                None
            },
        }
    }

    /// Records that a client synced to the snapshot `key`. Gives back the
    /// client's previous key where no client has it any more, so that its
    /// snapshot can be deleted; that key leaves the stored snapshots.
    pub fn update_snapshot_key(&mut self, client_id: String, key: SnapshotKey) -> (r: Option<SnapshotKey>)
        requires
            old(self).wf(),
        ensures
            final(self).wf(),
            final(self)@.latest_key == old(self)@.latest_key,
            final(self)@.clients == old(self)@.clients.insert(client_id@, key),
            r == stale_key(old(self)@.clients, final(self)@.clients, client_id@, old(self)@.latest_key),
            final(self)@.snapshots == match r {
                Some(k) => without_key(old(self)@.snapshots, k),
                None => old(self)@.snapshots,
            },
    {
        proof {
            lemma_entries_map(self.clients@);
        }
        let ghost before = self@.clients;
        let ghost id = client_id@;
        let old_key = match self.position(&client_id) {
            Some(i) => {
                let previous = self.clients[i].1;
                let ghost entries = self.clients@;
                self.clients.remove(i);
                self.clients.push((client_id, key));
                proof {
                    let e2 = self.clients@;
                    assert(unique_ids(e2)) by {
                        assert forall|a: int, b: int|
                            0 <= a < e2.len() && 0 <= b < e2.len() && a != b implies (#[trigger] e2[a]).0@
                            != (#[trigger] e2[b]).0@ by {
                            let n = e2.len() - 1;
                            let ia = if a < i { a } else { a + 1 };
                            let ib = if b < i { b } else { b + 1 };
                            if a < n {
                                assert(e2[a] == entries[ia]);
                            }
                            if b < n {
                                assert(e2[b] == entries[ib]);
                            }
                        }
                    }
                    lemma_entries_map(e2);
                    assert(entries_map(e2) =~= before.insert(id, key)) by {
                        assert forall|k: Seq<char>| #[trigger] entries_map(e2).contains_key(k) <==> before.insert(id, key).contains_key(k) by {
                            if entries_map(e2).contains_key(k) {
                                let j = choose|j: int| 0 <= j < e2.len() && (#[trigger] e2[j]).0@ == k;
                                if j < e2.len() - 1 {
                                    let ij = if j < i { j } else { j + 1 };
                                    assert(e2[j] == entries[ij]);
                                }
                            }
                            if before.contains_key(k) && k != id {
                                let j = choose|j: int| 0 <= j < entries.len() && (#[trigger] entries[j]).0@ == k;
                                assert(j != i);
                                let j2 = if j < i { j } else { j - 1 };
                                assert(e2[j2] == entries[j]);
                            }
                            if k == id {
                                assert(e2[e2.len() - 1].0@ == id);
                            }
                        }
                        assert forall|k: Seq<char>| #[trigger] entries_map(e2).contains_key(k) implies entries_map(e2)[k] == before.insert(id, key)[k] by {
                            let j = choose|j: int| 0 <= j < e2.len() && (#[trigger] e2[j]).0@ == k;
                            if j < e2.len() - 1 {
                                let ij = if j < i { j } else { j + 1 };
                                assert(e2[j] == entries[ij]);
                            }
                        }
                    }
                    assert(before[id] == previous);
                }
                Some(previous)
            },
            None => {
                let ghost entries = self.clients@;
                self.clients.push((client_id, key));
                proof {
                    let e2 = self.clients@;
                    assert(unique_ids(e2)) by {
                        assert forall|a: int, b: int|
                            0 <= a < e2.len() && 0 <= b < e2.len() && a != b implies (#[trigger] e2[a]).0@
                            != (#[trigger] e2[b]).0@ by {
                            if a < entries.len() {
                                assert(e2[a] == entries[a]);
                            }
                            if b < entries.len() {
                                assert(e2[b] == entries[b]);
                            }
                        }
                    }
                    assert(e2.drop_last() =~= entries);
                    assert(!before.contains_key(id));
                }
                None
            },
        };
        proof {
            lemma_entries_map(self.clients@);
        }
        match old_key {
            Some(previous) => {
                if self.key_used(previous) || self.latest_key == Some(previous) {
                    None
                } else {
                    proof {
                        if let Some(k) = self.latest_key {
                            lemma_without_other_keeps_last(self.snapshots@, previous);
                        }
                    }
                    self.snapshots = remove_key(&self.snapshots, previous);
                    Some(previous)
                }
            },
            None => None,
        }
    }

    /// Whether some client's last sync is the snapshot `key`.
    fn key_used(&self, key: SnapshotKey) -> (r: bool)
        requires
            self.wf(),
        ensures
            r == key_in_use(self@.clients, key),
    {
        proof {
            lemma_entries_map(self.clients@);
        }
        let mut i: usize = 0;
        while i < self.clients.len()
            invariant
                i <= self.clients@.len(),
                unique_ids(self.clients@),
                forall|k: int| 0 <= k < i ==> (#[trigger] self.clients@[k]).1 != key,
            decreases self.clients@.len() - i,
        {
            if self.clients[i].1 == key {
                proof {
                    lemma_entries_map(self.clients@);
                    let id = self.clients@[i as int].0@;
                    assert(self@.clients.contains_key(id) && self@.clients[id] == key);
                }
                return true;
            }
            i = i + 1;
        }
        proof {
            lemma_entries_map(self.clients@);
        }
        assert forall|id: Seq<char>| #[trigger] self@.clients.contains_key(id) implies self@.clients[id] != key by {
            let j = choose|j: int| 0 <= j < self.clients@.len() && (#[trigger] self.clients@[j]).0@ == id;
        }
        false
    }

    /// Records `key` as the latest snapshot. `true` where it was not the
    /// latest already, so that its data must be written; it then becomes
    /// the newest of the stored snapshots.
    pub fn record_latest(&mut self, key: SnapshotKey) -> (r: bool)
        requires
            old(self).wf(),
        ensures
            final(self).wf(),
            r == (old(self)@.latest_key != Some(key)),
            final(self)@.latest_key == Some(key),
            final(self)@.clients == old(self)@.clients,
            final(self)@.snapshots == if r {
                without_key(old(self)@.snapshots, key).push(key)
            } else {
                old(self)@.snapshots
            },
    {
        if self.latest_key == Some(key) {
            return false;
        }
        self.latest_key = Some(key);
        let mut kept = remove_key(&self.snapshots, key);
        kept.push(key);
        self.snapshots = kept;
        true
    }

    /// The keys of the stored snapshots, oldest first, for writing the info
    /// out.
    pub fn snapshot_keys(&self) -> (r: Vec<SnapshotKey>)
        ensures
            r@ == self@.snapshots,
    {
        self.snapshots.clone()
    }

    /// Keeps at most `max` stored snapshots (all of them where `max` is 0):
    /// the oldest beyond that leave and are given back, oldest first, so
    /// that their files can be deleted.
    pub fn retain_snapshots(&mut self, max: u64) -> (r: Vec<SnapshotKey>)
        requires
            old(self).wf(),
        ensures
            final(self).wf(),
            final(self)@.latest_key == old(self)@.latest_key,
            final(self)@.clients == old(self)@.clients,
            r@ == old(self)@.snapshots.take(excess_snapshots(old(self)@.snapshots.len(), max) as int),
            final(self)@.snapshots == old(self)@.snapshots.skip(
                excess_snapshots(old(self)@.snapshots.len(), max) as int,
            ),
    {
        let len = self.snapshots.len();
        let drop: usize = if max == 0 || (len as u64) <= max {
            0
        } else {
            len - (max as usize)
        };
        let mut dropped: Vec<SnapshotKey> = Vec::new();
        let mut kept: Vec<SnapshotKey> = Vec::new();
        let mut i: usize = 0;
        while i < len
            invariant
                len == self.snapshots@.len(),
                drop <= len,
                i <= len,
                i <= drop ==> dropped@ == self.snapshots@.take(i as int) && kept@.len() == 0,
                i > drop ==> dropped@ == self.snapshots@.take(drop as int) && kept@
                    == self.snapshots@.subrange(drop as int, i as int),
            decreases len - i,
        {
            if i < drop {
                dropped.push(self.snapshots[i]);
                assert(self.snapshots@.take(i + 1) =~= self.snapshots@.take(i as int).push(self.snapshots@[i as int]));
            } else {
                kept.push(self.snapshots[i]);
                assert(self.snapshots@.subrange(drop as int, i + 1) =~= self.snapshots@.subrange(
                    drop as int,
                    i as int,
                ).push(self.snapshots@[i as int]));
            }
            i = i + 1;
        }
        assert(self.snapshots@.subrange(drop as int, len as int) =~= self.snapshots@.skip(drop as int));
        assert(self.snapshots@.skip(drop as int) =~= kept@);
        self.snapshots = kept;
        dropped
    }

    /// The clients' entries, for writing the info out.
    pub fn entries(&self) -> (r: Vec<(String, SnapshotKey)>)
        ensures
            entries_map(r@) == self@.clients,
            self.wf() ==> unique_ids(r@),
    {
        let mut out: Vec<(String, SnapshotKey)> = Vec::new();
        let mut i: usize = 0;
        while i < self.clients.len()
            invariant
                i <= self.clients@.len(),
                out@ == self.clients@.take(i as int),
            decreases self.clients@.len() - i,
        {
            out.push((self.clients[i].0.clone(), self.clients[i].1));
            assert(self.clients@.take(i + 1) =~= self.clients@.take(i as int).push(self.clients@[i as int]));
            i = i + 1;
        }
        assert(self.clients@.take(self.clients@.len() as int) =~= self.clients@);
        out
    }

    /// Info with the given latest key, entries and stored snapshots; a
    /// later entry for the same client id replaces an earlier one, and the
    /// latest key is made the newest stored snapshot.
    pub fn from_entries(
        latest_key: Option<SnapshotKey>,
        entries: Vec<(String, SnapshotKey)>,
        snapshots: Vec<SnapshotKey>,
    ) -> (r: Self)
        ensures
            r.wf(),
            r@.latest_key == latest_key,
            r@.clients == entries_map(entries@),
            r@.snapshots == match latest_key {
                Some(k) => without_key(snapshots@, k).push(k),
                None => snapshots@,
            },
    {
        let mut info = SnapshotInfo::new();
        let mut i: usize = 0;
        while i < entries.len()
            invariant
                i <= entries@.len(),
                info.wf(),
                info@.latest_key is None,
                info@.clients == entries_map(entries@.take(i as int)),
            decreases entries@.len() - i,
        {
            let _ = info.update_snapshot_key(entries[i].0.clone(), entries[i].1);
            assert(entries@.take(i + 1).drop_last() =~= entries@.take(i as int));
            i = i + 1;
        }
        assert(entries@.take(entries@.len() as int) =~= entries@);
        info.latest_key = latest_key;
        match latest_key {
            Some(k) => {
                let mut stored = remove_key(&snapshots, k);
                stored.push(k);
                info.snapshots = stored;
            },
            None => {
                info.snapshots = snapshots;
            },
        }
        info
    }
}

/// The key a serialized state is stored under: its MD5 digest as a
/// big-endian number.
pub open spec fn key_of(bytes: Seq<u8>) -> nat {
    be_value(md5_digest(bytes))
}

/// What storing a device's serialized data did: the key it is stored under,
/// whether that snapshot is new (so its bytes must be written), and the key
/// of a snapshot that no device uses any more (so it can be deleted).
pub struct Commit {
    pub key: SnapshotKey,
    pub is_new: bool,
    pub stale: Option<SnapshotKey>,
}

impl SnapshotInfo {
    /// Makes a serialized state the latest snapshot, under its MD5 key.
    /// Gives the key and whether it was not the latest already; `None`, with
    /// nothing changed, where no digest can be had.
    pub fn create_snapshot(&mut self, bytes: &[u8]) -> (r: Option<(SnapshotKey, bool)>)
        requires
            old(self).wf(),
        ensures
            final(self).wf(),
            final(self)@.clients == old(self)@.clients,
            r matches Some(c) ==> c.0 == key_of(bytes@) && c.1 == (old(self)@.latest_key != Some(c.0))
                && final(self)@.latest_key == Some(c.0),
            r is None ==> final(self)@.latest_key == old(self)@.latest_key && final(self)@.snapshots
                == old(self)@.snapshots,
            r matches Some(c) ==> final(self)@.snapshots == if c.1 {
                without_key(old(self)@.snapshots, c.0).push(c.0)
            } else {
                old(self)@.snapshots
            },
    {
        let key = to_md5(bytes)?;
        let is_new = self.record_latest(key);
        Some((key, is_new))
    }

    /// Records that a device's data is now the serialized state `bytes`:
    /// the device's last sync and the latest snapshot both become its MD5
    /// key. `None`, with nothing changed, where no digest can be had.
    pub fn commit_client(&mut self, client_id: String, bytes: &[u8]) -> (r: Option<Commit>)
        requires
            old(self).wf(),
        ensures
            final(self).wf(),
            r is None ==> final(self)@.clients == old(self)@.clients && final(self)@.latest_key
                == old(self)@.latest_key && final(self)@.snapshots == old(self)@.snapshots,
            r matches Some(c) ==> {
                &&& c.key == key_of(bytes@)
                &&& final(self)@.clients == old(self)@.clients.insert(client_id@, c.key)
                &&& final(self)@.latest_key == Some(c.key)
                &&& c.is_new == (old(self)@.latest_key != Some(c.key))
                &&& c.stale == stale_key(old(self)@.clients, final(self)@.clients, client_id@, Some(c.key))
                &&& final(self)@.snapshots == ({
                    let recorded = if c.is_new {
                        without_key(old(self)@.snapshots, c.key).push(c.key)
                    } else {
                        old(self)@.snapshots
                    };
                    match c.stale {
                        Some(k) => without_key(recorded, k),
                        None => recorded,
                    }
                })
            },
    {
        let key = to_md5(bytes)?;
        let is_new = self.record_latest(key);
        let stale = self.update_snapshot_key(client_id, key);
        Some(Commit { key, is_new, stale })
    }
}

impl SnapshotInfo {
    /// Makes a serialized state the latest snapshot, as `create_snapshot`
    /// does, then keeps at most `max` stored snapshots (all where `max` is
    /// 0), as `retain_snapshots` does. Gives the key, whether it is new,
    /// and the keys of the snapshots that left, oldest first. With a limit
    /// of at least one, at most that many stay, and the returned key, the
    /// latest, is among them as the newest.
    pub fn store_snapshot(&mut self, bytes: &[u8], max: u64) -> (r: Option<(SnapshotKey, bool, Vec<SnapshotKey>)>)
        requires
            old(self).wf(),
        ensures
            final(self).wf(),
            final(self)@.clients == old(self)@.clients,
            r is None ==> final(self)@.latest_key == old(self)@.latest_key && final(self)@.snapshots
                == old(self)@.snapshots,
            r matches Some(c) ==> {
                let stored = if c.1 {
                    without_key(old(self)@.snapshots, c.0).push(c.0)
                } else {
                    old(self)@.snapshots
                };
                let gone = excess_snapshots(stored.len(), max) as int;
                &&& c.0 == key_of(bytes@)
                &&& c.1 == (old(self)@.latest_key != Some(c.0))
                &&& final(self)@.latest_key == Some(c.0)
                &&& c.2@ == stored.take(gone)
                &&& final(self)@.snapshots == stored.skip(gone)
            },
            r is Some && max >= 1 ==> final(self)@.snapshots.len() <= max,
            max >= 1 ==> (r matches Some(c) ==> final(self)@.snapshots.len() >= 1
                && final(self)@.snapshots.last() == c.0),
    {
        let (key, is_new) = self.create_snapshot(bytes)?;
        let dropped = self.retain_snapshots(max);
        Some((key, is_new, dropped))
    }

    /// Records that a device's data is now the serialized state `bytes`,
    /// as `commit_client` does, then keeps at most `max` stored snapshots
    /// (all where `max` is 0), as `retain_snapshots` does. Gives the commit
    /// and the keys of the snapshots that left, oldest first. With a limit
    /// of at least one, at most that many stay, and the committed key, the
    /// latest, is among them as the newest.
    pub fn commit_client_snapshot(&mut self, client_id: String, bytes: &[u8], max: u64) -> (r: Option<(Commit, Vec<SnapshotKey>)>)
        requires
            old(self).wf(),
        ensures
            final(self).wf(),
            r is None ==> final(self)@.clients == old(self)@.clients && final(self)@.latest_key
                == old(self)@.latest_key && final(self)@.snapshots == old(self)@.snapshots,
            r matches Some(cd) ==> {
                let c = cd.0;
                let recorded = if c.is_new {
                    without_key(old(self)@.snapshots, c.key).push(c.key)
                } else {
                    old(self)@.snapshots
                };
                let stored = match c.stale {
                    Some(k) => without_key(recorded, k),
                    None => recorded,
                };
                let gone = excess_snapshots(stored.len(), max) as int;
                &&& c.key == key_of(bytes@)
                &&& final(self)@.clients == old(self)@.clients.insert(client_id@, c.key)
                &&& final(self)@.latest_key == Some(c.key)
                &&& c.is_new == (old(self)@.latest_key != Some(c.key))
                &&& c.stale == stale_key(old(self)@.clients, final(self)@.clients, client_id@, Some(c.key))
                &&& cd.1@ == stored.take(gone)
                &&& final(self)@.snapshots == stored.skip(gone)
            },
            r is Some && max >= 1 ==> final(self)@.snapshots.len() <= max,
            max >= 1 ==> (r matches Some(cd) ==> final(self)@.snapshots.len() >= 1
                && final(self)@.snapshots.last() == cd.0.key),
    {
        let commit = self.commit_client(client_id, bytes)?;
        let dropped = self.retain_snapshots(max);
        Some((commit, dropped))
    }
}

/// Law: after a client moves to a new key, that is its key, and a key
/// given back for deletion is the client's old key, no client's key, and
/// not the latest snapshot.
pub proof fn lemma_update_snapshot_key(
    before: Map<Seq<char>, SnapshotKey>,
    id: Seq<char>,
    key: SnapshotKey,
    latest: Option<SnapshotKey>,
)
    ensures
        ({
            let after = before.insert(id, key);
            &&& after.contains_key(id) && after[id] == key
            &&& stale_key(before, after, id, latest) matches Some(k) ==> before.contains_key(id)
                && before[id] == k && k != key && !key_in_use(after, k) && latest != Some(k)
        }),
{
    let after = before.insert(id, key);
    if stale_key(before, after, id, latest) is Some {
        assert(after.contains_key(id));
    }
}

/// Law: with a limit of at least one, a snapshot that has just become the
/// newest stays when the stored snapshots are cut to the limit, and at most
/// the limit stay.
pub proof fn lemma_retention_keeps_newest(snapshots: Seq<SnapshotKey>, key: SnapshotKey, max: u64)
    requires
        max >= 1,
    ensures
        ({
            let after = without_key(snapshots, key).push(key);
            let kept = after.skip(excess_snapshots(after.len(), max) as int);
            &&& kept.len() <= max
            &&& kept.len() >= 1
            &&& kept.last() == key
        }),
{
    let after = without_key(snapshots, key).push(key);
    let kept = after.skip(excess_snapshots(after.len(), max) as int);
    assert(kept.last() == after.last());
}

/// How long to wait at least between two writes of the snapshot info, in
/// milliseconds.
pub const MIN_INFO_WRITE_INTERVAL_MS: u128 = 120_000;

/// Whether the snapshot info is due to be written, `elapsed_ms` after the
/// last write.
pub fn info_write_due(elapsed_ms: u128) -> (r: bool)
    ensures
        r == (elapsed_ms >= MIN_INFO_WRITE_INTERVAL_MS),
{
    elapsed_ms >= MIN_INFO_WRITE_INTERVAL_MS
}

} // verus!
