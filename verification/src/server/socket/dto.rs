//! The messages exchanged with a device over the socket: requests, which
//! carry a name made unique by a random suffix, and responses, which carry
//! the name of the request they answer.
use vstd::prelude::*;
use crate::text::{decimal, push_decimal};
use crate::server::socket::{base_name, first_separator_at, separator_at};

verus! {

/// A JSON value of the `serde_json` crate.
#[verifier::external_type_specification]
#[verifier::external_body]
pub struct ExJsonValue(serde_json::Value);

/// Calls `rand::random::<u8>`. Nothing is claimed of the number.
#[verifier::external_body]
fn random_u8() -> u8 {
    rand::random::<u8>()
}

/// The name of a request: its path, `__`, and a number that tells it apart
/// from other requests of the same path.
pub open spec fn request_name_of(name: Seq<char>, nonce: u8) -> Seq<char> {
    name + seq!['_', '_'] + decimal(nonce as nat)
}

/// The name of a request of path `name` with the number `nonce`.
pub fn request_name(name: &str, nonce: u8) -> (r: String)
    ensures
        r@ == request_name_of(name@, nonce),
{
    let mut out = String::from_str(name);
    out.append("__");
    proof {
        reveal_strlit("__");
    }
    push_decimal(&mut out, nonce as u64);
    out
}

/// Law: the name of a request gives its path back: the part before the
/// first `__` is the path, for a path that holds no `__` and does not end
/// in `_`.
pub proof fn lemma_request_name_base(name: Seq<char>, nonce: u8)
    requires
        forall|i: int| !#[trigger] separator_at(name, i),
        name.len() == 0 || name.last() != '_',
    ensures
        base_name(request_name_of(name, nonce)) == name,
{
    let full = request_name_of(name, nonce);
    let n = name.len() as int;
    assert(full[n] == '_' && full[n + 1] == '_');
    assert(separator_at(full, n));
    assert forall|j: int| 0 <= j < n implies !#[trigger] separator_at(full, j) by {
        if j + 1 < n {
            assert(full[j] == name[j] && full[j + 1] == name[j + 1]);
            assert(!separator_at(name, j));
        } else {
            assert(full[j] == name[j]);
            assert(name.last() == name[j]);
        }
    }
    assert(first_separator_at(full, n));
    let w = choose|i: int| #[trigger] first_separator_at(full, i);
    assert(w == n) by {
        if w < n {
            assert(!separator_at(full, w));
        } else if w > n {
            assert(!separator_at(full, n));
        }
    }
    assert(full.take(n) =~= name);
}

/// A request to a device.
pub struct Req {
    pub name: String,
    pub path: Vec<String>,
    /// The values the request carries; they go out as a JSON array.
    pub data: Vec<serde_json::Value>,
}

impl Req {
    /// A request of path `name` carrying the values as an array, with a
    /// random number in its name. Gives the name too, by which the
    /// response is found.
    pub fn new(name: &str, data: Vec<serde_json::Value>) -> (r: (String, Self))
        ensures
            r.0@ == r.1.name@,
            exists|nonce: u8| r.1.name@ == request_name_of(name@, nonce),
            r.1.path@.len() == 1 && r.1.path@[0]@ == name@,
            r.1.data@ == data@,
    {
        let nonce = random_u8();
        let req_name = request_name(name, nonce);
        let mut path: Vec<String> = Vec::new();
        path.push(String::from_str(name));
        let req = Req { name: req_name.clone(), path, data };
        (req_name, req)
    }
}

/// A device's answer to a request.
pub struct Resp {
    /// The name of the request this answers.
    pub name: String,
    pub error: Option<String>,
    pub data: Option<serde_json::Value>,
}

impl Resp {
    /// The empty answer to the request named `name`.
    pub fn gen_empty(name: String) -> (r: Self)
        ensures
            r.name@ == name@,
            r.error is None,
            r.data is None,
    {
        Resp { name, error: None, data: None }
    }

    /// The name of the request this answers.
    pub fn get_name(&self) -> (r: &String)
        ensures
            r@ == self.name@,
    {
        &self.name
    }

    /// The data of an answer that carries no error.
    pub fn get_data(self) -> (r: Option<serde_json::Value>)
        requires
            self.error is None,
        ensures
            r == self.data,
    {
        self.data
    }
}

/// Which kinds of data a device syncs, and whether it skips snapshots.
#[derive(Clone, Copy, Debug, PartialEq, Eq, Structural)]
pub struct ListConfig {
    pub skip_snapshot: bool,
}

/// The features a device reports: for each kind of data, its settings, or
/// `None` where the device does not sync it.
#[derive(Clone, Copy, Debug, PartialEq, Eq, Structural)]
pub struct EnabledFeatures {
    pub list: Option<ListConfig>,
    pub dislike: Option<ListConfig>,
}

impl EnabledFeatures {
    /// The features the server works with: both kinds synced, with
    /// snapshots.
    pub open spec fn default_spec() -> Self {
        EnabledFeatures {
            list: Some(ListConfig { skip_snapshot: false }),
            dislike: Some(ListConfig { skip_snapshot: false }),
        }
    }

    /// The features the server works with.
    pub fn default_features() -> (r: Self)
        ensures
            r == Self::default_spec(),
    {
        EnabledFeatures {
            list: Some(ListConfig { skip_snapshot: false }),
            dislike: Some(ListConfig { skip_snapshot: false }),
        }
    }

    /// Whether a device's features are those the server works with.
    pub fn is_supported(&self) -> (r: bool)
        ensures
            r == (*self == Self::default_spec()),
    {
        *self == Self::default_features()
    }
}

} // verus!
