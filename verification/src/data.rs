//! The synced data: settings, playlists, dislike rules and snapshots.
pub mod config;
pub mod dislike;
pub mod list;
pub mod snapshot;
pub mod user;

use vstd::prelude::*;
use crate::utils::crypto::{rand_16bytes_as_base64, base64_encoding};

verus! {

/// What the server calls itself before its id when a client asks.
pub const SERVER_ID_PREFIX: &'static str = "OjppZDo6";

/// The identity of this server: 16 random bytes in base64, made once.
pub struct ServerInfo {
    pub server_id: String,
}

impl ServerInfo {
    /// A fresh random identity.
    pub fn generate() -> (r: Self)
        ensures
            exists|b: Seq<u8>| b.len() == 16 && r.server_id@ == base64_encoding(b),
    {
        ServerInfo { server_id: rand_16bytes_as_base64() }
    }

    /// The text that identifies this server to clients: the prefix, then
    /// the id.
    pub fn id_text(&self) -> (r: String)
        ensures
            r@ == SERVER_ID_PREFIX@ + self.server_id@,
    {
        let mut out = String::from_str(SERVER_ID_PREFIX);
        out.append(self.server_id.as_str());
        out
    }
}

} // verus!
