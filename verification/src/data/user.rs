//! The devices of a user.
use vstd::prelude::*;
use crate::utils::crypto::{rand_16bytes_as_base64, base64_encoding};

verus! {

/// A device that a user has connected: its client id and AES key (both 16
/// random bytes in base64), its name, and whether it is a phone.
pub struct DeviceInfo {
    pub client_id: String,
    pub key: String,
    pub device_name: String,
    pub is_mobile: bool,
    pub last_connect_date: Option<usize>,
}

impl DeviceInfo {
    /// A newly connected device with a fresh random client id and key.
    pub fn new(device_name: String, is_mobile: bool) -> (r: Self)
        ensures
            r.device_name@ == device_name@,
            r.is_mobile == is_mobile,
            r.last_connect_date == Some(0usize),
            exists|b: Seq<u8>| b.len() == 16 && r.client_id@ == base64_encoding(b),
            exists|b: Seq<u8>| b.len() == 16 && r.key@ == base64_encoding(b),
    {
        DeviceInfo {
            client_id: rand_16bytes_as_base64(),
            key: rand_16bytes_as_base64(),
            device_name,
            is_mobile,
            last_connect_date: Some(0),
        }
    }

    /// The device's name.
    pub fn get_device_name(&self) -> (r: String)
        ensures
            r@ == self.device_name@,
    {
        self.device_name.clone()
    }

    /// Renames the device; `true` where the name changed, so that the
    /// devices must be written out again.
    pub fn update_device_name(&mut self, device_name: &str) -> (r: bool)
        ensures
            final(self).device_name@ == device_name@,
            r == (old(self).device_name@ != device_name@),
            final(self).client_id == old(self).client_id,
            final(self).key == old(self).key,
            final(self).is_mobile == old(self).is_mobile,
            final(self).last_connect_date == old(self).last_connect_date,
    {
        let name = String::from_str(device_name);
        if self.device_name == name {
            false
        } else {
            self.device_name = name;
            true
        }
    }

    /// What is known of the device besides its client id.
    pub open spec fn device_view(&self) -> DeviceView {
        DeviceView {
            key: self.key@,
            device_name: self.device_name@,
            is_mobile: self.is_mobile,
            last_connect_date: self.last_connect_date,
        }
    }

    /// A copy of the device's record.
    pub fn duplicate(&self) -> (r: Self)
        ensures
            r.client_id@ == self.client_id@,
            r.device_view() == self.device_view(),
    {
        DeviceInfo {
            client_id: self.client_id.clone(),
            key: self.key.clone(),
            device_name: self.device_name.clone(),
            is_mobile: self.is_mobile,
            last_connect_date: self.last_connect_date,
        }
    }
}

/// What is known of a device besides its client id.
pub struct DeviceView {
    pub key: Seq<char>,
    pub device_name: Seq<char>,
    pub is_mobile: bool,
    pub last_connect_date: Option<usize>,
}

/// The devices as a map by client id; a later record for the same client
/// id replaces an earlier one.
pub open spec fn devices_map(infos: Seq<DeviceInfo>) -> Map<Seq<char>, DeviceView>
    decreases infos.len(),
{
    if infos.len() == 0 {
        Map::empty()
    } else {
        devices_map(infos.drop_last()).insert(infos.last().client_id@, infos.last().device_view())
    }
}

/// No client id occurs twice among the records.
pub open spec fn unique_client_ids(infos: Seq<DeviceInfo>) -> bool {
    forall|i: int, j: int|
        0 <= i < infos.len() && 0 <= j < infos.len() && i != j ==> (#[trigger] infos[i]).client_id@
            != (#[trigger] infos[j]).client_id@
}

/// Lemma: with unique client ids, the map has each record, and each key of
/// the map is the client id of a record.
proof fn lemma_devices_map(infos: Seq<DeviceInfo>)
    requires
        unique_client_ids(infos),
    ensures
        forall|i: int|
            0 <= i < infos.len() ==> devices_map(infos).contains_key(#[trigger] infos[i].client_id@)
                && devices_map(infos)[infos[i].client_id@] == infos[i].device_view(),
        forall|id: Seq<char>|
            #[trigger] devices_map(infos).contains_key(id) ==> exists|i: int|
                0 <= i < infos.len() && (#[trigger] infos[i]).client_id@ == id,
    decreases infos.len(),
{
    if infos.len() > 0 {
        let rest = infos.drop_last();
        assert(unique_client_ids(rest)) by {
            assert forall|i: int, j: int|
                0 <= i < rest.len() && 0 <= j < rest.len() && i != j implies (#[trigger] rest[i]).client_id@
                != (#[trigger] rest[j]).client_id@ by {
                assert(rest[i] == infos[i] && rest[j] == infos[j]);
            }
        }
        lemma_devices_map(rest);
        let n = infos.len() - 1;
        assert forall|i: int| 0 <= i < infos.len() implies devices_map(infos).contains_key(
            #[trigger] infos[i].client_id@,
        ) && devices_map(infos)[infos[i].client_id@] == infos[i].device_view() by {
            if i < n {
                assert(rest[i] == infos[i]);
                assert(infos[i].client_id@ != infos[n].client_id@);
            }
        }
        assert forall|id: Seq<char>| #[trigger] devices_map(infos).contains_key(id) implies exists|i: int|
            0 <= i < infos.len() && (#[trigger] infos[i]).client_id@ == id by {
            if id != infos[n].client_id@ {
                assert(devices_map(rest).contains_key(id));
                let i = choose|i: int| 0 <= i < rest.len() && (#[trigger] rest[i]).client_id@ == id;
                assert(infos[i] == rest[i]);
            }
        }
    }
}

/// The devices of a user, by client id.
pub struct DevicesInfos {
    clients: Vec<DeviceInfo>,
}

impl DevicesInfos {
    /// Well formed: no client id occurs twice.
    pub closed spec fn wf(&self) -> bool {
        unique_client_ids(self.clients@)
    }

    /// The devices by client id.
    pub closed spec fn devices(&self) -> Map<Seq<char>, DeviceView> {
        devices_map(self.clients@)
    }

    /// No device yet.
    pub fn new() -> (r: Self)
        ensures
            r.wf(),
            r.devices() == Map::<Seq<char>, DeviceView>::empty(),
    {
        DevicesInfos { clients: Vec::new() }
    }

    /// The position of a device's record.
    fn position(&self, client_id: &String) -> (r: Option<usize>)
        ensures
            r matches Some(i) ==> i < self.clients@.len() && self.clients@[i as int].client_id@
                == client_id@,
            r is None ==> forall|i: int|
                0 <= i < self.clients@.len() ==> (#[trigger] self.clients@[i]).client_id@ != client_id@,
    {
        let mut i: usize = 0;
        while i < self.clients.len()
            invariant
                i <= self.clients@.len(),
                forall|k: int| 0 <= k < i ==> (#[trigger] self.clients@[k]).client_id@ != client_id@,
            decreases self.clients@.len() - i,
        {
            if self.clients[i].client_id == *client_id {
                return Some(i);
            }
            i = i + 1;
        }
        None
    }

    /// The record of a device.
    pub fn get_client_device_info(&self, client_id: &String) -> (r: Option<DeviceInfo>)
        requires
            self.wf(),
        ensures
            r is Some <==> self.devices().contains_key(client_id@),
            r matches Some(d) ==> d.client_id@ == client_id@ && d.device_view() == self.devices()[client_id@],
    {
        proof {
            lemma_devices_map(self.clients@);
        }
        match self.position(client_id) {
            Some(i) => Some(self.clients[i].duplicate()),
            None => {
                assert(!self.devices().contains_key(client_id@)) by {
                    if self.devices().contains_key(client_id@) {
                        let j = choose|j: int|
                            0 <= j < self.clients@.len() && (#[trigger] self.clients@[j]).client_id@ == client_id@;
                    }
                }
                None
            },
        }
    }

    /// Replaces the record at position `i` by one with the same client id.
    proof fn lemma_replace(before: Seq<DeviceInfo>, i: int, d: DeviceInfo)
        requires
            unique_client_ids(before),
            0 <= i < before.len(),
            d.client_id@ == before[i].client_id@,
        ensures
            unique_client_ids(before.update(i, d)),
            devices_map(before.update(i, d)) == devices_map(before).insert(d.client_id@, d.device_view()),
    {
        let p2 = before.update(i, d);
        let id = d.client_id@;
        lemma_devices_map(before);
        assert(unique_client_ids(p2)) by {
            assert forall|a: int, b: int|
                0 <= a < p2.len() && 0 <= b < p2.len() && a != b implies (#[trigger] p2[a]).client_id@
                != (#[trigger] p2[b]).client_id@ by {
                assert(p2[a].client_id@ == before[a].client_id@);
                assert(p2[b].client_id@ == before[b].client_id@);
            }
        }
        lemma_devices_map(p2);
        let target = devices_map(before).insert(id, d.device_view());
        assert(devices_map(p2) =~= target) by {
            assert forall|k: Seq<char>| #[trigger] devices_map(p2).contains_key(k) <==> target.contains_key(k) by {
                if devices_map(p2).contains_key(k) {
                    let j = choose|j: int| 0 <= j < p2.len() && (#[trigger] p2[j]).client_id@ == k;
                    assert(p2[j].client_id@ == before[j].client_id@);
                }
                if devices_map(before).contains_key(k) {
                    let j = choose|j: int| 0 <= j < before.len() && (#[trigger] before[j]).client_id@ == k;
                    assert(p2[j].client_id@ == before[j].client_id@);
                }
                if k == id {
                    assert(p2[i].client_id@ == id);
                }
            }
            assert forall|k: Seq<char>| #[trigger] devices_map(p2).contains_key(k) implies devices_map(p2)[k] == target[k] by {
                let j = choose|j: int| 0 <= j < p2.len() && (#[trigger] p2[j]).client_id@ == k;
                if j != i {
                    assert(p2[j] == before[j]);
                }
            }
        }
    }

    /// Adds a device's record, replacing the one with the same client id.
    pub fn insert_device(&mut self, device_info: DeviceInfo)
        requires
            old(self).wf(),
        ensures
            final(self).wf(),
            final(self).devices() == old(self).devices().insert(
                device_info.client_id@,
                device_info.device_view(),
            ),
    {
        match self.position(&device_info.client_id) {
            Some(i) => {
                proof {
                    Self::lemma_replace(self.clients@, i as int, device_info);
                }
                self.clients.set(i, device_info);
            },
            None => {
                let ghost before = self.clients@;
                self.clients.push(device_info);
                proof {
                    let p2 = self.clients@;
                    assert(unique_client_ids(p2)) by {
                        assert forall|a: int, b: int|
                            0 <= a < p2.len() && 0 <= b < p2.len() && a != b implies (#[trigger] p2[a]).client_id@
                            != (#[trigger] p2[b]).client_id@ by {
                            if a < before.len() {
                                assert(p2[a] == before[a]);
                            }
                            if b < before.len() {
                                assert(p2[b] == before[b]);
                            }
                        }
                    }
                    assert(p2.drop_last() =~= before);
                }
            },
        }
    }

    /// The devices of a loaded list of records; a later record for the same
    /// client id replaces an earlier one.
    pub fn load(infos: Vec<DeviceInfo>) -> (r: Self)
        ensures
            r.wf(),
            r.devices() == devices_map(infos@),
    {
        let mut out = DevicesInfos::new();
        let mut i: usize = 0;
        while i < infos.len()
            invariant
                i <= infos@.len(),
                out.wf(),
                out.devices() == devices_map(infos@.take(i as int)),
            decreases infos@.len() - i,
        {
            out.insert_device(infos[i].duplicate());
            assert(infos@.take(i + 1).drop_last() =~= infos@.take(i as int));
            i = i + 1;
        }
        assert(infos@.take(infos@.len() as int) =~= infos@);
        out
    }

    /// The client ids of the devices.
    pub fn client_ids(&self) -> (r: Vec<String>)
        requires
            self.wf(),
        ensures
            forall|id: Seq<char>|
                self.devices().contains_key(id) <==> exists|i: int| 0 <= i < r@.len() && (#[trigger] r@[i])@ == id,
    {
        proof {
            lemma_devices_map(self.clients@);
        }
        let mut out: Vec<String> = Vec::new();
        let mut i: usize = 0;
        while i < self.clients.len()
            invariant
                i <= self.clients@.len(),
                out@.len() == i,
                forall|k: int| 0 <= k < i ==> (#[trigger] out@[k])@ == self.clients@[k].client_id@,
            decreases self.clients@.len() - i,
        {
            out.push(self.clients[i].client_id.clone());
            i = i + 1;
        }
        assert forall|id: Seq<char>|
            self.devices().contains_key(id) <==> exists|i: int| 0 <= i < out@.len() && (#[trigger] out@[i])@ == id by {
            if self.devices().contains_key(id) {
                let j = choose|j: int| 0 <= j < self.clients@.len() && (#[trigger] self.clients@[j]).client_id@ == id;
                assert(out@[j]@ == id);
            }
            if exists|i: int| 0 <= i < out@.len() && (#[trigger] out@[i])@ == id {
                let j = choose|i: int| 0 <= i < out@.len() && (#[trigger] out@[i])@ == id;
                assert(self.clients@[j].client_id@ == id);
            }
        }
        out
    }

    /// Renames a known device; `true` where the name changed, so that the
    /// devices must be written out again.
    pub fn update_device_name(&mut self, client_id: &String, device_name: &str) -> (r: bool)
        requires
            old(self).wf(),
            old(self).devices().contains_key(client_id@),
        ensures
            final(self).wf(),
            r == (old(self).devices()[client_id@].device_name != device_name@),
            final(self).devices() == old(self).devices().insert(
                client_id@,
                DeviceView { device_name: device_name@, ..old(self).devices()[client_id@] },
            ),
    {
        proof {
            lemma_devices_map(self.clients@);
        }
        match self.position(client_id) {
            Some(i) => {
                let mut d = self.clients[i].duplicate();
                let changed = d.update_device_name(device_name);
                proof {
                    Self::lemma_replace(self.clients@, i as int, d);
                    assert(d.device_view() == DeviceView { device_name: device_name@, ..self.devices()[client_id@] });
                }
                self.clients.set(i, d);
                changed
            },
            None => {
                proof {
                    let j = choose|j: int| 0 <= j < self.clients@.len() && (#[trigger] self.clients@[j]).client_id@ == client_id@;
                }
                false
            },
        }
    }

    /// The records of the devices, for writing them out.
    pub fn infos(&self) -> (r: Vec<DeviceInfo>)
        ensures
            devices_map(r@) == self.devices(),
            unique_client_ids(r@) == self.wf(),
    {
        let mut out: Vec<DeviceInfo> = Vec::new();
        let mut i: usize = 0;
        while i < self.clients.len()
            invariant
                i <= self.clients@.len(),
                out@.len() == i,
                forall|k: int| 0 <= k < i ==> (#[trigger] out@[k]).client_id@ == self.clients@[k].client_id@
                    && out@[k].device_view() == self.clients@[k].device_view(),
            decreases self.clients@.len() - i,
        {
            out.push(self.clients[i].duplicate());
            i = i + 1;
        }
        proof {
            Self::lemma_same_records(out@, self.clients@);
        }
        out
    }

    /// Lemma: records that agree one by one on client ids and what is known
    /// of the devices make the same map.
    proof fn lemma_same_records(a: Seq<DeviceInfo>, b: Seq<DeviceInfo>)
        requires
            a.len() == b.len(),
            forall|k: int| 0 <= k < a.len() ==> (#[trigger] a[k]).client_id@ == b[k].client_id@
                && a[k].device_view() == b[k].device_view(),
        ensures
            devices_map(a) == devices_map(b),
            unique_client_ids(a) == unique_client_ids(b),
        decreases a.len(),
    {
        if a.len() > 0 {
            Self::lemma_same_records(a.drop_last(), b.drop_last());
            assert(a.last().client_id@ == b.last().client_id@);
        }
        if unique_client_ids(a) != unique_client_ids(b) {
            if !unique_client_ids(a) {
                let (i, j) = choose|i: int, j: int|
                    0 <= i < a.len() && 0 <= j < a.len() && i != j && (#[trigger] a[i]).client_id@
                        == (#[trigger] a[j]).client_id@;
                assert(b[i].client_id@ == b[j].client_id@);
            } else {
                let (i, j) = choose|i: int, j: int|
                    0 <= i < b.len() && 0 <= j < b.len() && i != j && (#[trigger] b[i]).client_id@
                        == (#[trigger] b[j]).client_id@;
                assert(a[i].client_id@ == a[j].client_id@);
            }
        }
    }
}

/// Law: a device's record reads back as it was added, and adding it leaves
/// every other device as it was.
pub proof fn lemma_insert_then_get(devices: Map<Seq<char>, DeviceView>, device: DeviceInfo, other: Seq<char>)
    ensures
        ({
            let after = devices.insert(device.client_id@, device.device_view());
            &&& after.contains_key(device.client_id@)
            &&& after[device.client_id@] == device.device_view()
            &&& other != device.client_id@ ==> (after.contains_key(other) == devices.contains_key(other)
                && (devices.contains_key(other) ==> after[other] == devices[other]))
        }),
{
}

} // verus!
