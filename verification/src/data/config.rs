//! Server and per-user settings that the sync logic reads.
use vstd::prelude::*;

verus! {

/// Where songs that a client added go when lists are merged.
#[derive(Clone, Copy, Debug, PartialEq, Eq, Structural)]
pub enum AddMusicLocation {
    Top,
    Bottom,
}

/// The settings of one user.
pub struct UserConfig {
    pub password: String,
    pub max_snapshot_count: u64,
    pub add_music_location: AddMusicLocation,
}

/// The settings of the server: its display name, whether it trusts the
/// `X-Real-IP` header of a proxy, and its users, by name.
pub struct Config {
    pub server_name: String,
    pub enable_proxy: bool,
    pub user_configs: Vec<(String, UserConfig)>,
}

} // verus!
