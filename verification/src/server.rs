//! What the server decides around connections: which address a request
//! comes from, whether that address is blocked after failed logins, and
//! which user a device belongs to.
pub mod socket;
pub mod sync;

use vstd::prelude::*;
use crate::data::list::custom_list::opt_view;
use crate::utils::{RwCounter, COUNTER_TTL_MS, entry_alive};

verus! {

/// After this many failed logins an address is blocked.
pub const MAX_AUTH_FAILURES: usize = 20;

/// The address a request comes from is blocked, or unknown.
#[derive(Clone, Copy, Debug, PartialEq, Eq, Structural)]
pub struct BlockedIpError;

/// The address a request comes from: behind a proxy, the `x-real-ip`
/// header where the request has one; otherwise the peer's address.
pub open spec fn chosen_ip(
    enable_proxy: bool,
    real_ip: Option<Seq<char>>,
    peer_ip: Option<Seq<char>>,
) -> Option<Seq<char>> {
    if enable_proxy && real_ip is Some {
        real_ip
    } else {
        peer_ip
    }
}

/// The client id to user name pairs as a map; a later pair for the same
/// client id replaces an earlier one.
pub open spec fn pairs_map(pairs: Seq<(String, String)>) -> Map<Seq<char>, Seq<char>>
    decreases pairs.len(),
{
    if pairs.len() == 0 {
        Map::empty()
    } else {
        pairs_map(pairs.drop_last()).insert(pairs.last().0@, pairs.last().1@)
    }
}

/// No client id occurs twice among the pairs.
pub open spec fn unique_keys(pairs: Seq<(String, String)>) -> bool {
    forall|i: int, j: int|
        0 <= i < pairs.len() && 0 <= j < pairs.len() && i != j ==> (#[trigger] pairs[i]).0@
            != (#[trigger] pairs[j]).0@
}

/// Lemma: with unique client ids, the map has each pair, and each key of
/// the map is the client id of a pair.
proof fn lemma_pairs_map(pairs: Seq<(String, String)>)
    requires
        unique_keys(pairs),
    ensures
        forall|i: int|
            0 <= i < pairs.len() ==> pairs_map(pairs).contains_key(#[trigger] pairs[i].0@)
                && pairs_map(pairs)[pairs[i].0@] == pairs[i].1@,
        forall|id: Seq<char>|
            #[trigger] pairs_map(pairs).contains_key(id) ==> exists|i: int|
                0 <= i < pairs.len() && (#[trigger] pairs[i]).0@ == id,
    decreases pairs.len(),
{
    if pairs.len() > 0 {
        let rest = pairs.drop_last();
        assert(unique_keys(rest)) by {
            assert forall|i: int, j: int|
                0 <= i < rest.len() && 0 <= j < rest.len() && i != j implies (#[trigger] rest[i]).0@
                != (#[trigger] rest[j]).0@ by {
                assert(rest[i] == pairs[i] && rest[j] == pairs[j]);
            }
        }
        lemma_pairs_map(rest);
        let n = pairs.len() - 1;
        assert forall|i: int| 0 <= i < pairs.len() implies pairs_map(pairs).contains_key(
            #[trigger] pairs[i].0@,
        ) && pairs_map(pairs)[pairs[i].0@] == pairs[i].1@ by {
            if i < n {
                assert(rest[i] == pairs[i]);
                assert(pairs[i].0@ != pairs[n].0@);
            }
        }
        assert forall|id: Seq<char>| #[trigger] pairs_map(pairs).contains_key(id) implies exists|i: int|
            0 <= i < pairs.len() && (#[trigger] pairs[i]).0@ == id by {
            if id != pairs[n].0@ {
                assert(pairs_map(rest).contains_key(id));
                let i = choose|i: int| 0 <= i < rest.len() && (#[trigger] rest[i]).0@ == id;
                assert(pairs[i] == rest[i]);
            }
        }
    }
}

/// The server's own state around logins: the failed logins per address,
/// and the user each known device belongs to.
pub struct ServerContext {
    auth_failed_ips: RwCounter,
    device_user_map: Vec<(String, String)>,
}

impl ServerContext {
    /// Well formed: no client id occurs twice.
    pub closed spec fn wf(&self) -> bool {
        unique_keys(self.device_user_map@)
    }

    /// The failed logins per address: count and time of the last one.
    pub closed spec fn failed_logins(&self) -> Map<Seq<char>, (usize, u64)> {
        self.auth_failed_ips.entries()
    }

    /// The user name of each known device, by client id.
    pub closed spec fn device_users(&self) -> Map<Seq<char>, Seq<char>> {
        pairs_map(self.device_user_map@)
    }

    /// No failed login and no device yet.
    pub fn new() -> (r: Self)
        ensures
            r.wf(),
            r.failed_logins() == Map::<Seq<char>, (usize, u64)>::empty(),
            r.device_users() == Map::<Seq<char>, Seq<char>>::empty(),
    {
        ServerContext { auth_failed_ips: RwCounter::new(), device_user_map: Vec::new() }
    }

    /// The position of a device's pair.
    fn position(&self, client_id: &String) -> (r: Option<usize>)
        ensures
            r matches Some(i) ==> i < self.device_user_map@.len()
                && self.device_user_map@[i as int].0@ == client_id@,
            r is None ==> forall|i: int|
                0 <= i < self.device_user_map@.len() ==> (#[trigger] self.device_user_map@[i]).0@
                    != client_id@,
    {
        let mut i: usize = 0;
        while i < self.device_user_map.len()
            invariant
                i <= self.device_user_map@.len(),
                forall|k: int| 0 <= k < i ==> (#[trigger] self.device_user_map@[k]).0@ != client_id@,
            decreases self.device_user_map@.len() - i,
        {
            if self.device_user_map[i].0 == *client_id {
                return Some(i);
            }
            i = i + 1;
        }
        None
    }

    /// The user name a device belongs to.
    pub fn get_username(&self, client_id: &String) -> (r: Option<String>)
        requires
            self.wf(),
        ensures
            r is Some <==> self.device_users().contains_key(client_id@),
            r matches Some(name) ==> name@ == self.device_users()[client_id@],
    {
        proof {
            lemma_pairs_map(self.device_user_map@);
        }
        match self.position(client_id) {
            Some(i) => Some(self.device_user_map[i].1.clone()),
            None => {
                assert(!self.device_users().contains_key(client_id@)) by {
                    if self.device_users().contains_key(client_id@) {
                        let j = choose|j: int|
                            0 <= j < self.device_user_map@.len() && (#[trigger] self.device_user_map@[j]).0@
                                == client_id@;
                    }
                }
                None
            },
        }
    }

    /// Records that a device belongs to a user, replacing what was known of
    /// that device.
    pub fn update_device_username_map(&mut self, client_id: String, username: String)
        requires
            old(self).wf(),
        ensures
            final(self).wf(),
            final(self).device_users() == old(self).device_users().insert(client_id@, username@),
            final(self).failed_logins() == old(self).failed_logins(),
    {
        proof {
            lemma_pairs_map(self.device_user_map@);
        }
        let ghost before = self.device_users();
        let ghost id = client_id@;
        let ghost name = username@;
        match self.position(&client_id) {
            Some(i) => {
                let ghost pairs = self.device_user_map@;
                self.device_user_map.set(i, (client_id, username));
                proof {
                    let p2 = self.device_user_map@;
                    assert(unique_keys(p2)) by {
                        assert forall|a: int, b: int|
                            0 <= a < p2.len() && 0 <= b < p2.len() && a != b implies (#[trigger] p2[a]).0@
                            != (#[trigger] p2[b]).0@ by {
                            assert(p2[a].0@ == pairs[a].0@);
                            assert(p2[b].0@ == pairs[b].0@);
                        }
                    }
                    lemma_pairs_map(p2);
                    assert(pairs_map(p2) =~= before.insert(id, name)) by {
                        assert forall|k: Seq<char>| #[trigger] pairs_map(p2).contains_key(k) <==> before.insert(id, name).contains_key(k) by {
                            if pairs_map(p2).contains_key(k) {
                                let j = choose|j: int| 0 <= j < p2.len() && (#[trigger] p2[j]).0@ == k;
                                assert(p2[j].0@ == pairs[j].0@);
                            }
                            if before.contains_key(k) {
                                let j = choose|j: int| 0 <= j < pairs.len() && (#[trigger] pairs[j]).0@ == k;
                                assert(p2[j].0@ == pairs[j].0@);
                            }
                        }
                        assert forall|k: Seq<char>| #[trigger] pairs_map(p2).contains_key(k) implies pairs_map(p2)[k] == before.insert(id, name)[k] by {
                            let j = choose|j: int| 0 <= j < p2.len() && (#[trigger] p2[j]).0@ == k;
                            if j != i {
                                assert(p2[j] == pairs[j]);
                            }
                        }
                    }
                }
            },
            None => {
                let ghost pairs = self.device_user_map@;
                self.device_user_map.push((client_id, username));
                proof {
                    let p2 = self.device_user_map@;
                    assert(unique_keys(p2)) by {
                        assert forall|a: int, b: int|
                            0 <= a < p2.len() && 0 <= b < p2.len() && a != b implies (#[trigger] p2[a]).0@
                            != (#[trigger] p2[b]).0@ by {
                            if a < pairs.len() {
                                assert(p2[a] == pairs[a]);
                            }
                            if b < pairs.len() {
                                assert(p2[b] == pairs[b]);
                            }
                        }
                    }
                    assert(p2.drop_last() =~= pairs);
                }
            },
        }
    }

    /// Records that each of a user's devices belongs to that user.
    pub fn register_each_device(&mut self, client_ids: &Vec<String>, username: &String)
        requires
            old(self).wf(),
        ensures
            final(self).wf(),
            final(self).failed_logins() == old(self).failed_logins(),
            forall|id: Seq<char>|
                #[trigger] final(self).device_users().contains_key(id) <==> (old(self).device_users().contains_key(id)
                    || exists|i: int| 0 <= i < client_ids@.len() && client_ids@[i]@ == id),
            forall|id: Seq<char>|
                #[trigger] final(self).device_users().contains_key(id) ==> final(self).device_users()[id] == (
                if exists|i: int| 0 <= i < client_ids@.len() && client_ids@[i]@ == id {
                    username@
                } else {
                    old(self).device_users()[id]
                }),
    {
        let ghost before = self.device_users();
        let mut k: usize = 0;
        while k < client_ids.len()
            invariant
                k <= client_ids@.len(),
                self.wf(),
                self.failed_logins() == old(self).failed_logins(),
                before == old(self).device_users(),
                forall|id: Seq<char>|
                    #[trigger] self.device_users().contains_key(id) <==> (before.contains_key(id)
                        || exists|i: int| 0 <= i < k && client_ids@[i]@ == id),
                forall|id: Seq<char>|
                    #[trigger] self.device_users().contains_key(id) ==> self.device_users()[id] == (
                    if exists|i: int| 0 <= i < k && client_ids@[i]@ == id {
                        username@
                    } else {
                        before[id]
                    }),
            decreases client_ids@.len() - k,
        {
            self.update_device_username_map(client_ids[k].clone(), username.clone());
            proof {
                assert forall|id: Seq<char>|
                    #[trigger] self.device_users().contains_key(id) <==> (before.contains_key(id)
                        || exists|i: int| 0 <= i < k + 1 && client_ids@[i]@ == id) by {
                    if exists|i: int| 0 <= i < k + 1 && client_ids@[i]@ == id {
                        let i = choose|i: int| 0 <= i < k + 1 && client_ids@[i]@ == id;
                        if i < k {
                            assert(exists|i: int| 0 <= i < k && client_ids@[i]@ == id);
                        }
                    }
                }
                assert forall|id: Seq<char>|
                    #[trigger] self.device_users().contains_key(id) implies self.device_users()[id] == (
                    if exists|i: int| 0 <= i < k + 1 && client_ids@[i]@ == id {
                        username@
                    } else {
                        before[id]
                    }) by {
                    if exists|i: int| 0 <= i < k + 1 && client_ids@[i]@ == id {
                        let i = choose|i: int| 0 <= i < k + 1 && client_ids@[i]@ == id;
                        if i < k {
                            assert(exists|i: int| 0 <= i < k && client_ids@[i]@ == id);
                        }
                    } else {
                        assert(!exists|i: int| 0 <= i < k && client_ids@[i]@ == id) by {
                            if exists|i: int| 0 <= i < k && client_ids@[i]@ == id {
                                let i = choose|i: int| 0 <= i < k && client_ids@[i]@ == id;
                                assert(0 <= i < k + 1 && client_ids@[i]@ == id);
                            }
                        }
                    }
                }
            }
            k = k + 1;
        }
    }

    /// The address a request comes from, unless it is blocked: an address
    /// with 20 or more failed logins is, and so is a request with no
    /// address.
    pub fn get_ip(&self, enable_proxy: bool, real_ip: Option<String>, peer_ip: Option<String>) -> (r: Result<String, BlockedIpError>)
        ensures
            r is Ok <==> (chosen_ip(enable_proxy, opt_view(real_ip), opt_view(peer_ip)) matches Some(ip)
                && RwCounter::count_of(self.failed_logins(), ip) < MAX_AUTH_FAILURES),
            r matches Ok(ip) ==> Some(ip@) == chosen_ip(
                enable_proxy,
                opt_view(real_ip),
                opt_view(peer_ip),
            ),
    {
        let ip = if enable_proxy && real_ip.is_some() {
            real_ip
        } else {
            peer_ip
        };
        match ip {
            Some(ip) => {
                if self.auth_failed_ips.count(&ip) < MAX_AUTH_FAILURES {
                    Ok(ip)
                } else {
                    Err(BlockedIpError)
                }
            },
            None => Err(BlockedIpError),
        }
    }

    /// The number of failed logins counted for an address.
    pub fn failed_login_count(&self, ip: &String) -> (r: usize)
        ensures
            r == RwCounter::count_of(self.failed_logins(), ip@),
    {
        self.auth_failed_ips.count(ip)
    }

    /// Counts a failed login from an address at time `now`.
    pub fn record_auth_failed_ip(&mut self, ip: &String, now: u64)
        requires
            RwCounter::count_of(old(self).failed_logins(), ip@) < usize::MAX,
        ensures
            final(self).failed_logins() == old(self).failed_logins().insert(
                ip@,
                ((RwCounter::count_of(old(self).failed_logins(), ip@) + 1) as usize, now),
            ),
            final(self).device_users() == old(self).device_users(),
            final(self).wf() == old(self).wf(),
    {
        self.auth_failed_ips.increase(ip.clone(), now);
    }

    /// Forgets the failed logins of addresses that have had none for two
    /// days before `now`.
    pub fn cleanup_failed_logins(&mut self, now: u64)
        ensures
            now < COUNTER_TTL_MS ==> final(self).failed_logins() == old(self).failed_logins(),
            now >= COUNTER_TTL_MS ==> final(self).failed_logins() == old(self).failed_logins().restrict(
                old(self).failed_logins().dom().filter(
                    |k: Seq<char>|
                        entry_alive(old(self).failed_logins()[k].1, (now - COUNTER_TTL_MS) as u64),
                ),
            ),
            final(self).device_users() == old(self).device_users(),
            final(self).wf() == old(self).wf(),
    {
        self.auth_failed_ips.cleanup(now);
    }
}

/// Law: an address is let through only while it has fewer than 20 failed
/// logins, and each failed login brings it one closer: after 20 failures
/// counted from none it is blocked.
pub proof fn lemma_blocked_after_failures(entries: Map<Seq<char>, (usize, u64)>, ip: Seq<char>, now: u64)
    requires
        RwCounter::count_of(entries, ip) == MAX_AUTH_FAILURES - 1,
    ensures
        RwCounter::count_of(
            entries.insert(ip, ((RwCounter::count_of(entries, ip) + 1) as usize, now)),
            ip,
        ) >= MAX_AUTH_FAILURES,
{
}

/// Law: once a device is recorded as a user's, its client id gives that
/// user's name, and the other devices keep theirs.
pub proof fn lemma_device_user_readback(users: Map<Seq<char>, Seq<char>>, client_id: Seq<char>, username: Seq<char>, other: Seq<char>)
    ensures
        ({
            let after = users.insert(client_id, username);
            &&& after.contains_key(client_id) && after[client_id] == username
            &&& other != client_id ==> (after.contains_key(other) == users.contains_key(other)
                && (users.contains_key(other) ==> after[other] == users[other]))
        }),
{
}

} // verus!

