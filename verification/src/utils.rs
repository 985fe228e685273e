//! Clock, failure counter, compression and cryptography helpers.
pub mod crypto;

use vstd::prelude::*;
use vstd::utf8::*;
use dashmap::DashMap;
use flate2::{read::GzDecoder, write::GzEncoder, Compression};
use std::io::{Read, Write};
use std::time::{Duration, SystemTime};
use crate::utils::crypto::{base64_decoding, base64_encoding};

verus! {

// ------------------------------------------------------------------------
// Wall clock
// ------------------------------------------------------------------------

/// A point in time of the system clock.
#[verifier::external_type_specification]
#[verifier::external_body]
pub struct ExSystemTime(SystemTime);

/// Calls `SystemTime::now`. Nothing is claimed of the time it reads.
#[verifier::external_body]
fn system_time_now() -> SystemTime {
    SystemTime::now()
}

/// Calls `SystemTime::duration_since(UNIX_EPOCH)`: the time since the
/// epoch, or (its error's `duration`) the time before it. Nothing is
/// claimed of the durations.
#[verifier::external_body]
fn duration_since_unix_epoch(t: &SystemTime) -> Result<Duration, Duration> {
    match t.duration_since(std::time::UNIX_EPOCH) {
        Ok(d) => Ok(d),
        Err(e) => Err(e.duration()),
    }
}

/// Calls `Duration::as_millis`. Nothing is claimed of the count.
#[verifier::external_body]
fn duration_as_millis(d: &Duration) -> u128 {
    d.as_millis()
}

/// The milliseconds since the Unix epoch of a clock reading given as the
/// milliseconds after the epoch (`Ok`) or before it (`Err`): a reading
/// before the epoch has none.
pub fn epoch_millis(reading: Result<u128, u128>) -> (r: Option<u128>)
    ensures
        r == match reading {
            Ok(ms) => Some(ms),
            Err(_) => None::<u128>,
        },
{
    match reading {
        Ok(ms) => Some(ms),
        Err(_) => None,
    }
}

/// Milliseconds since the Unix epoch by the system clock; `None` where the
/// clock stands before the epoch. What the clock reads is not claimed;
/// `epoch_millis` states the result for each reading.
pub fn now_ms() -> (r: Option<u128>) {
    let t = system_time_now();
    let reading = match duration_since_unix_epoch(&t) {
        Ok(d) => Ok(duration_as_millis(&d)),
        Err(d) => Err(duration_as_millis(&d)),
    };
    epoch_millis(reading)
}

// ------------------------------------------------------------------------
// Counter of failures per key
// ------------------------------------------------------------------------

/// The concurrent map of the `dashmap` crate.
#[verifier::external_type_specification]
#[verifier::external_body]
#[verifier::reject_recursive_types(K)]
#[verifier::reject_recursive_types(V)]
#[verifier::reject_recursive_types(S)]
pub struct ExDashMap<K, V, S>(DashMap<K, V, S>);

/// The map inside a counter: a key's count and the time it was last
/// counted.
pub type CounterMap = DashMap<String, (usize, u64)>;

/// The entries of a counter's map: a key's count and the time it was last
/// counted, in milliseconds of the caller's monotonic clock.
pub uninterp spec fn counter_entries(m: CounterMap) -> Map<Seq<char>, (usize, u64)>;

/// Calls `DashMap::new`. Claims the new map is empty.
#[verifier::external_body]
fn counter_map_new() -> (r: CounterMap)
    ensures
        counter_entries(r).dom().is_empty(),
{
    DashMap::new()
}

/// Calls `DashMap::get` and copies the value out. Claims it finds the entry
/// of the key, compared by content.
#[verifier::external_body]
fn counter_map_get(m: &CounterMap, key: &String) -> (r: Option<(usize, u64)>)
    ensures
        r is Some <==> counter_entries(*m).contains_key(key@),
        r matches Some(v) ==> v == counter_entries(*m)[key@],
{
    match m.get(key) {
        Some(entry) => Some(*entry),
        None => None,
    }
}

/// Calls `DashMap::insert`. Claims the key then maps to the value and the
/// other entries stay.
#[verifier::external_body]
fn counter_map_insert(m: &mut CounterMap, key: String, value: (usize, u64))
    ensures
        counter_entries(*final(m)) == counter_entries(*old(m)).insert(key@, value),
{
    m.insert(key, value);
}

/// Whether an entry last counted at `last_used` is still kept when entries
/// older than `deadline` are dropped.
pub open spec fn entry_alive(last_used: u64, deadline: u64) -> bool {
    last_used >= deadline
}

/// Whether an entry last counted at `last_used` is kept.
pub fn is_entry_alive(last_used: u64, deadline: u64) -> (r: bool)
    ensures
        r == entry_alive(last_used, deadline),
{
    last_used >= deadline
}

/// Calls `DashMap::retain` with a test that keeps the entries counted at
/// `deadline` or later. Claims exactly those entries stay, unchanged.
#[verifier::external_body]
fn counter_map_retain_since(m: &mut CounterMap, deadline: u64)
    ensures
        counter_entries(*final(m)) == counter_entries(*old(m)).restrict(
            counter_entries(*old(m)).dom().filter(
                |k: Seq<char>| entry_alive(counter_entries(*old(m))[k].1, deadline),
            ),
        ),
{
    m.retain(|_, v| is_entry_alive(v.1, deadline));
}

/// How long a key's count is kept after it was last counted: two days, in
/// milliseconds.
pub const COUNTER_TTL_MS: u64 = 172_800_000;

/// Counts events per key, such as failed logins per address, and forgets a
/// key two days after it was last counted.
pub struct RwCounter {
    map: CounterMap,
}

impl RwCounter {
    /// The count and last time of each key.
    pub closed spec fn entries(&self) -> Map<Seq<char>, (usize, u64)> {
        counter_entries(self.map)
    }

    /// The count of a key in a table of entries.
    pub open spec fn count_of(entries: Map<Seq<char>, (usize, u64)>, key: Seq<char>) -> nat {
        if entries.contains_key(key) {
            entries[key].0 as nat
        } else {
            0
        }
    }

    /// An empty counter.
    pub fn new() -> (r: Self)
        ensures
            r.entries() == Map::<Seq<char>, (usize, u64)>::empty(),
    {
        RwCounter { map: counter_map_new() }
    }

    /// Counts one more event of `key` at time `now`.
    pub fn increase(&mut self, key: String, now: u64)
        requires
            Self::count_of(old(self).entries(), key@) < usize::MAX,
        ensures
            final(self).entries() == old(self).entries().insert(
                key@,
                ((Self::count_of(old(self).entries(), key@) + 1) as usize, now),
            ),
    {
        let count = match counter_map_get(&self.map, &key) {
            Some(entry) => entry.0,
            None => 0,
        };
        counter_map_insert(&mut self.map, key, (count + 1, now));
    }

    /// The number of events counted for `key` (0 for an unknown key).
    pub fn count(&self, key: &String) -> (r: usize)
        ensures
            r == Self::count_of(self.entries(), key@),
    {
        match counter_map_get(&self.map, key) {
            Some(entry) => entry.0,
            None => 0,
        }
    }

    /// Forgets the keys last counted more than two days before `now`. Before
    /// two days have passed on the clock, nothing is forgotten.
    pub fn cleanup(&mut self, now: u64)
        ensures
            now < COUNTER_TTL_MS ==> final(self).entries() == old(self).entries(),
            now >= COUNTER_TTL_MS ==> final(self).entries() == old(self).entries().restrict(
                old(self).entries().dom().filter(
                    |k: Seq<char>|
                        entry_alive(old(self).entries()[k].1, (now - COUNTER_TTL_MS) as u64),
                ),
            ),
    {
        if now < COUNTER_TTL_MS {
            return ;
        }
        let deadline = now - COUNTER_TTL_MS;
        counter_map_retain_since(&mut self.map, deadline);
    }
}

/// Law: counting a key raises its count by one and leaves other keys alone.
pub proof fn lemma_counter_increase(before: Map<Seq<char>, (usize, u64)>, key: Seq<char>, other: Seq<char>, now: u64)
    requires
        RwCounter::count_of(before, key) < usize::MAX,
    ensures
        ({
            let after = before.insert(key, ((RwCounter::count_of(before, key) + 1) as usize, now));
            &&& RwCounter::count_of(after, key) == RwCounter::count_of(before, key) + 1
            &&& other != key ==> RwCounter::count_of(after, other) == RwCounter::count_of(before, other)
        }),
{
}

/// Law: a key never counted has count 0, and so has a key that a cleanup
/// forgot; a key that a cleanup keeps keeps its count.
pub proof fn lemma_counter_zero(entries: Map<Seq<char>, (usize, u64)>, key: Seq<char>, deadline: u64)
    ensures
        RwCounter::count_of(Map::<Seq<char>, (usize, u64)>::empty(), key) == 0,
        ({
            let kept = entries.restrict(
                entries.dom().filter(|k: Seq<char>| entry_alive(entries[k].1, deadline)),
            );
            &&& entries.contains_key(key) && !entry_alive(entries[key].1, deadline)
                ==> RwCounter::count_of(kept, key) == 0
            &&& entries.contains_key(key) && entry_alive(entries[key].1, deadline)
                ==> RwCounter::count_of(kept, key) == RwCounter::count_of(entries, key)
            &&& !entries.contains_key(key) ==> RwCounter::count_of(kept, key) == 0
        }),
{
}

// ------------------------------------------------------------------------
// gzip + base64 framing
// ------------------------------------------------------------------------

/// The gzip stream that `flate2` writes for `data` at the default level.
pub uninterp spec fn gzip_compression(data: Seq<u8>) -> Seq<u8>;

/// What reading a gzip stream gives; `None` where it is not a valid stream.
pub uninterp spec fn gzip_decompression(data: Seq<u8>) -> Option<Seq<u8>>;

/// Calls `GzEncoder::new` over a `Vec` at `Compression::default()`, then
/// `write_all` and `finish`. Claims the result is the named stream and that
/// reading it back gives `data`. Writing into a `Vec` does not fail.
#[verifier::external_body]
fn gzip_compress(data: &[u8]) -> (r: Vec<u8>)
    ensures
        r@ == gzip_compression(data@),
        gzip_decompression(r@) == Some(data@),
{
    let mut encoder = GzEncoder::new(Vec::new(), Compression::default());
    match encoder.write_all(data) {
        Ok(()) => {},
        Err(_) => return Vec::new(),
    }
    match encoder.finish() {
        Ok(v) => v,
        Err(_) => Vec::new(),
    }
}

/// Calls `GzDecoder::new` over the bytes, then `read_to_end`. Claims the
/// result is the named decompression.
#[verifier::external_body]
fn gzip_decompress(data: &[u8]) -> (r: Option<Vec<u8>>)
    ensures
        r is Some <==> gzip_decompression(data@) is Some,
        r matches Some(v) ==> v@ == gzip_decompression(data@)->Some_0,
{
    let mut buffer = Vec::new();
    match GzDecoder::new(data).read_to_end(&mut buffer) {
        Ok(_) => Some(buffer),
        Err(_) => None,
    }
}

/// What `ungzip_base64` makes of its input: base64-decoded, then read as a
/// gzip stream.
pub open spec fn ungzip_base64_spec(data: Seq<u8>) -> Option<Seq<u8>> {
    match base64_decoding(data) {
        Some(compressed) => gzip_decompression(compressed),
        None => None,
    }
}

/// Compresses `data` with gzip and spells the stream in base64.
pub fn gzip_base64(data: &[u8]) -> (r: String)
    ensures
        r@ == base64_encoding(gzip_compression(data@)),
        is_ascii_chars(r@),
        ungzip_base64_spec(encode_utf8(r@)) == Some(data@),
{
    let compressed = gzip_compress(data);
    crate::utils::crypto::base64_encode(compressed.as_slice())
}

/// Decodes base64 and decompresses the gzip stream in it; `None` where
/// either step fails.
pub fn ungzip_base64(data: &[u8]) -> (r: Option<Vec<u8>>)
    ensures
        r is Some <==> ungzip_base64_spec(data@) is Some,
        r matches Some(v) ==> v@ == ungzip_base64_spec(data@)->Some_0,
{
    let compressed = crate::utils::crypto::base64_decode(data)?;
    gzip_decompress(compressed.as_slice())
}

} // verus!
