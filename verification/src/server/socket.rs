//! What a WebSocket connection decides: how text frames are packed and
//! unpacked, where a request goes, which broadcasts a device gets, and
//! what the heartbeat does.
use vstd::prelude::*;
use vstd::utf8::*;
use crate::text::{push_char, slice_from};
use crate::utils::{gzip_base64, ungzip_base64, ungzip_base64_spec};
use crate::utils::crypto::base64_encoding;
use crate::utils::gzip_compression;

pub mod dto;

verus! {

/// The kinds of synced data.
#[derive(Clone, Copy, Debug, PartialEq, Eq, Structural)]
pub enum DataType {
    List,
    Dislike,
}

/// Frames longer than this many bytes go compressed.
pub const MAX_PLAIN_FRAME: usize = 1024;

/// The bytes of `cg_`, which mark a compressed frame.
pub open spec fn cg_bytes() -> Seq<u8> {
    seq![99u8, 103u8, 95u8]
}

/// The characters of `cg_`.
pub open spec fn cg_chars() -> Seq<char> {
    seq!['c', 'g', '_']
}

/// The frame that carries a text: the text itself, or where it is longer
/// than 1024 bytes, `cg_` and the text gzip-compressed in base64.
pub open spec fn outgoing_frame(text: Seq<char>) -> Seq<char> {
    if encode_utf8(text).len() > MAX_PLAIN_FRAME {
        cg_chars() + base64_encoding(gzip_compression(encode_utf8(text)))
    } else {
        text
    }
}

/// The bytes a received frame stands for: after `cg_`, the base64 gzip
/// stream unpacked (`None` where that fails); otherwise the frame's bytes.
pub open spec fn incoming_bytes(frame: Seq<u8>) -> Option<Seq<u8>> {
    if frame.take(3) == cg_bytes() {
        ungzip_base64_spec(frame.skip(3))
    } else {
        Some(frame)
    }
}

/// Whether a received frame can be looked at: it has 3 bytes, and a
/// character starts at byte 3.
pub open spec fn frame_readable(frame: Seq<u8>) -> bool {
    frame.len() >= 3 && is_char_boundary(frame, 3)
}

/// Packs a text for sending: long texts are compressed.
pub fn frame_outgoing(text: String) -> (r: String)
    ensures
        r@ == outgoing_frame(text@),
        frame_readable(encode_utf8(text@)) && encode_utf8(text@).take(3) != cg_bytes()
            ==> frame_readable(encode_utf8(r@)) && incoming_bytes(encode_utf8(r@)) == Some(
            encode_utf8(text@),
        ),
{
    let bytes = text.as_str().as_bytes();
    if bytes.len() > MAX_PLAIN_FRAME {
        let packed = gzip_base64(bytes);
        let mut frame = String::new();
        push_char(&mut frame, 'c');
        push_char(&mut frame, 'g');
        push_char(&mut frame, '_');
        frame.append(packed.as_str());
        proof {
            assert(frame@ =~= cg_chars() + packed@);
            lemma_cg_frame(packed@);
        }
        frame
    } else {
        text
    }
}

/// Lemma: a `cg_` frame of an ASCII payload reads back as that payload's
/// unpacking.
proof fn lemma_cg_frame(payload: Seq<char>)
    requires
        is_ascii_chars(payload),
    ensures
        is_ascii_chars(cg_chars() + payload),
        encode_utf8(cg_chars() + payload).take(3) == cg_bytes(),
        encode_utf8(cg_chars() + payload).skip(3) == encode_utf8(payload),
        frame_readable(encode_utf8(cg_chars() + payload)),
{
    let f = cg_chars() + payload;
    assert(is_ascii_chars(f)) by {
        assert forall|i: int| 0 <= i < f.len() implies '\0' <= #[trigger] f[i] <= '\u{7f}' by {
            if i >= 3 {
                assert(f[i] == payload[i - 3]);
            }
        }
    }
    is_ascii_chars_encode_utf8(f);
    is_ascii_chars_encode_utf8(payload);
    let b = encode_utf8(f);
    assert(b.take(3) =~= cg_bytes());
    assert(b.skip(3) =~= encode_utf8(payload)) by {
        assert forall|i: int| 0 <= i < b.skip(3).len() implies b.skip(3)[i] == encode_utf8(payload)[i] by {
            assert(f[i + 3] == payload[i]);
        }
    }
    encode_utf8_valid_utf8(f);
    if b.len() > 3 {
        is_char_boundary_iff_not_is_continuation_byte(b, 3);
    } else {
        is_char_boundary_start_end_of_seq(b);
    }
}

/// Unpacks a received text frame into the bytes of the message; `None`
/// where a compressed frame does not unpack.
pub fn decode_incoming(text: &str) -> (r: Option<Vec<u8>>)
    requires
        frame_readable(encode_utf8(text@)),
    ensures
        r is Some <==> incoming_bytes(encode_utf8(text@)) is Some,
        r matches Some(v) ==> v@ == incoming_bytes(encode_utf8(text@))->Some_0,
{
    let b = text.as_bytes();
    if b[0] == 99 && b[1] == 103 && b[2] == 95 {
        assert(b@.take(3) =~= cg_bytes());
        ungzip_base64(slice_from(b, 3))
    } else {
        assert(b@.take(3) != cg_bytes()) by {
            if b@.take(3) == cg_bytes() {
                assert(b@.take(3)[0] == b@[0]);
                assert(b@.take(3)[1] == b@[1]);
                assert(b@.take(3)[2] == b@[2]);
            }
        }
        Some(text.as_bytes_vec())
    }
}

/// Where a request from a device goes.
#[derive(Clone, Copy, Debug, PartialEq, Eq, Structural)]
pub enum RequestRoute {
    /// A change to the lists, to apply and broadcast.
    ApplyList,
    /// A change to the dislike rules, to apply and broadcast.
    ApplyDislike,
    /// A change of a kind the device has not finished syncing; dropped.
    NotReady,
    /// A request the server does not know.
    Unsupported,
}

/// Whether a `__` starts at position `i` of a name.
pub open spec fn separator_at(name: Seq<char>, i: int) -> bool {
    0 <= i && i + 1 < name.len() && name[i] == '_' && name[i + 1] == '_'
}

/// Whether position `i` holds the first `__` of a name.
pub open spec fn first_separator_at(name: Seq<char>, i: int) -> bool {
    separator_at(name, i) && forall|j: int| 0 <= j < i ==> !#[trigger] separator_at(name, j)
}

/// The name of a request without its `__` suffix: the text before the first
/// `__`, or all of it.
pub open spec fn base_name(name: Seq<char>) -> Seq<char> {
    if exists|i: int| #[trigger] separator_at(name, i) {
        name.take(choose|i: int| #[trigger] first_separator_at(name, i))
    } else {
        name
    }
}

/// The name of a request without its `__` suffix.
pub fn request_base_name(name: &str) -> (r: String)
    ensures
        r@ == base_name(name@),
{
    let n = name.unicode_len();
    let mut out = String::new();
    let mut i: usize = 0;
    while i < n
        invariant
            i <= n,
            n == name@.len(),
            out@ == name@.take(i as int),
            forall|j: int| 0 <= j < i ==> !#[trigger] separator_at(name@, j),
        decreases n - i,
    {
        let c = name.get_char(i);
        if c == '_' && i + 1 < n && name.get_char(i + 1) == '_' {
            assert(separator_at(name@, i as int));
            assert(first_separator_at(name@, i as int));
            let ghost w = choose|k: int| #[trigger] first_separator_at(name@, k);
            assert(w == i) by {
                if w < i {
                    assert(!separator_at(name@, w));
                } else if w > i {
                    assert(!separator_at(name@, i as int));
                }
            }
            return out;
        }
        assert(!separator_at(name@, i as int));
        push_char(&mut out, c);
        assert(name@.take(i + 1) =~= name@.take(i as int).push(c));
        i = i + 1;
    }
    assert(name@.take(n as int) =~= name@);
    assert(!exists|k: int| #[trigger] separator_at(name@, k)) by {
        if exists|k: int| #[trigger] separator_at(name@, k) {
            let k = choose|k: int| #[trigger] separator_at(name@, k);
            assert(0 <= k < n);
        }
    }
    out
}

/// The names of the two kinds of change.
pub open spec fn list_action_name() -> Seq<char> {
    seq![
        'o',
        'n',
        'L',
        'i',
        's',
        't',
        'S',
        'y',
        'n',
        'c',
        'A',
        'c',
        't',
        'i',
        'o',
        'n',
    ]
}

/// The name of a change to the dislike rules.
pub open spec fn dislike_action_name() -> Seq<char> {
    seq![
        'o',
        'n',
        'D',
        'i',
        's',
        'l',
        'i',
        'k',
        'e',
        'S',
        'y',
        'n',
        'c',
        'A',
        'c',
        't',
        'i',
        'o',
        'n',
    ]
}

/// Where a request goes, by the name before `__` and by which kinds of data
/// the device has finished syncing.
pub open spec fn route_of(name: Seq<char>, list_ready: bool, dislike_ready: bool) -> RequestRoute {
    let base = base_name(name);
    if base == list_action_name() {
        if list_ready {
            RequestRoute::ApplyList
        } else {
            RequestRoute::NotReady
        }
    } else if base == dislike_action_name() {
        if dislike_ready {
            RequestRoute::ApplyDislike
        } else {
            RequestRoute::NotReady
        }
    } else {
        RequestRoute::Unsupported
    }
}

/// The name of the changes of a kind of data, as requests and broadcasts
/// carry it.
pub fn action_name(data_type: DataType) -> (r: String)
    ensures
        r@ == (match data_type {
            DataType::List => list_action_name(),
            DataType::Dislike => dislike_action_name(),
        }),
{
    let mut out = String::new();
    push_char(&mut out, 'o');
    push_char(&mut out, 'n');
    match data_type {
        DataType::List => {
            push_char(&mut out, 'L');
            push_char(&mut out, 'i');
            push_char(&mut out, 's');
            push_char(&mut out, 't');
        },
        DataType::Dislike => {
            push_char(&mut out, 'D');
            push_char(&mut out, 'i');
            push_char(&mut out, 's');
            push_char(&mut out, 'l');
            push_char(&mut out, 'i');
            push_char(&mut out, 'k');
            push_char(&mut out, 'e');
        },
    }
    push_char(&mut out, 'S');
    push_char(&mut out, 'y');
    push_char(&mut out, 'n');
    push_char(&mut out, 'c');
    push_char(&mut out, 'A');
    push_char(&mut out, 'c');
    push_char(&mut out, 't');
    push_char(&mut out, 'i');
    push_char(&mut out, 'o');
    push_char(&mut out, 'n');
    assert(out@ =~= (match data_type {
        DataType::List => list_action_name(),
        DataType::Dislike => dislike_action_name(),
    }));
    out
}

/// Where a request with this name goes.
pub fn route_request(name: &str, list_ready: bool, dislike_ready: bool) -> (r: RequestRoute)
    ensures
        r == route_of(name@, list_ready, dislike_ready),
{
    let base = request_base_name(name);
    let list_name = action_name(DataType::List);
    let dislike_name = action_name(DataType::Dislike);
    if base == list_name {
        if list_ready {
            RequestRoute::ApplyList
        } else {
            RequestRoute::NotReady
        }
    } else if base == dislike_name {
        if dislike_ready {
            RequestRoute::ApplyDislike
        } else {
            RequestRoute::NotReady
        }
    } else {
        RequestRoute::Unsupported
    }
}

/// Whether a device gets a broadcast: not its own change, and only once it
/// has finished syncing that kind of data.
pub fn should_forward(
    own_client_id: &String,
    sender_client_id: &String,
    data_type: DataType,
    list_ready: bool,
    dislike_ready: bool,
) -> (r: bool)
    ensures
        r == (own_client_id@ != sender_client_id@ && match data_type {
            DataType::List => list_ready,
            DataType::Dislike => dislike_ready,
        }),
{
    if *own_client_id == *sender_client_id {
        return false;
    }
    match data_type {
        DataType::List => list_ready,
        DataType::Dislike => dislike_ready,
    }
}

/// What the heartbeat does at a tick.
#[derive(Clone, Copy, Debug, PartialEq, Eq, Structural)]
pub enum HeartbeatAction {
    /// No answer since the last tick: close the connection.
    Close,
    /// Send the text `ping` (phones answer that).
    PingText,
    /// Send a WebSocket ping frame.
    PingFrame,
}

/// What the heartbeat does, by whether an answer came since the last tick.
pub fn heartbeat_action(got_pong: bool, is_mobile: bool) -> (r: HeartbeatAction)
    ensures
        !got_pong ==> r == HeartbeatAction::Close,
        got_pong && is_mobile ==> r == HeartbeatAction::PingText,
        got_pong && !is_mobile ==> r == HeartbeatAction::PingFrame,
{
    if !got_pong {
        HeartbeatAction::Close
    } else if is_mobile {
        HeartbeatAction::PingText
    } else {
        HeartbeatAction::PingFrame
    }
}

} // verus!
