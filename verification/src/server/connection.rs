//! The decisions of a client connection: which upgrade requests are
//! accepted, and what becomes of each binary message a client sends.

use vstd::prelude::*;

use crate::msgpack::{encode_time_sync_reply, uint_bytes, value_header};
use crate::text::{chars_of, has_infix, has_prefix, push_char, contains_str};

verus! {

/// A character in lower case, for ASCII letters; any other stays.
pub open spec fn lower_char(c: char) -> char {
    if 'A' <= c && c <= 'Z' {
        ((c as u32) + 32) as char
    } else {
        c
    }
}

/// A text with its ASCII letters in lower case.
pub open spec fn ascii_lower(s: Seq<char>) -> Seq<char> {
    s.map_values(|c: char| lower_char(c))
}

/// The text `s` in ASCII lower case.
pub fn to_ascii_lower(s: &str) -> (r: String)
    ensures
        r@ == ascii_lower(s@),
{
    let chars = chars_of(s);
    let mut r = String::new();
    let mut i: usize = 0;
    while i < chars.len()
        invariant
            i <= chars@.len(),
            chars@ == s@,
            r@ == ascii_lower(s@.subrange(0, i as int)),
        decreases chars@.len() - i,
    {
        let c = chars[i];
        let l = if 'A' <= c && c <= 'Z' {
            ((c as u8) + 32) as char
        } else {
            c
        };
        push_char(&mut r, l);
        proof {
            assert(ascii_lower(s@.subrange(0, i + 1)) =~= ascii_lower(s@.subrange(0, i as int)).push(lower_char(c)));
        }
        i = i + 1;
    }
    assert(s@.subrange(0, s@.len() as int) == s@);
    r
}

/// The text `s` without every leading `/nt/`, however often it repeats.
pub open spec fn trim_nt(s: Seq<char>) -> Seq<char>
    decreases s.len(),
{
    if has_prefix(s, "/nt/"@) && s.len() >= 4 {
        trim_nt(s.subrange(4, s.len() as int))
    } else {
        s
    }
}

/// The client name of a request path: the path without its leading `/nt/`s.
pub fn client_name_of(path: &str) -> (name: String)
    ensures
        name@ == trim_nt(path@),
{
    proof {
        reveal_strlit("/nt/");
    }
    let chars = chars_of(path);
    let mut start: usize = 0;
    assert(path@.subrange(0, path@.len() as int) == path@);
    while chars.len() - start >= 4 && chars[start] == '/' && chars[start + 1] == 'n' && chars[start + 2] == 't' && chars[start + 3] == '/'
        invariant
            start <= chars@.len(),
            chars@ == path@,
            trim_nt(path@) == trim_nt(path@.subrange(start as int, path@.len() as int)),
        decreases chars@.len() - start,
    {
        proof {
            reveal_strlit("/nt/");
            let rest = path@.subrange(start as int, path@.len() as int);
            assert(rest.subrange(0, 4) =~= "/nt/"@);
            assert(rest.subrange(4, rest.len() as int) =~= path@.subrange(start + 4, path@.len() as int));
        }
        start = start + 4;
    }
    proof {
        reveal_strlit("/nt/");
        let rest = path@.subrange(start as int, path@.len() as int);
        if has_prefix(rest, "/nt/"@) && rest.len() >= 4 {
            assert(rest.subrange(0, 4) == "/nt/"@);
            assert(rest.subrange(0, 4)[0] == rest[0]);
            assert(rest.subrange(0, 4)[1] == rest[1]);
            assert(rest.subrange(0, 4)[2] == rest[2]);
            assert(rest.subrange(0, 4)[3] == rest[3]);
            assert(rest[0] == '/' && rest[1] == 'n' && rest[2] == 't' && rest[3] == '/');
            assert(false);
        }
    }
    let mut name = String::new();
    let mut i: usize = start;
    while i < chars.len()
        invariant
            start <= i <= chars@.len(),
            chars@ == path@,
            name@ == path@.subrange(start as int, i as int),
        decreases chars@.len() - i,
    {
        push_char(&mut name, chars[i]);
        proof {
            assert(path@.subrange(start as int, i + 1) =~= path@.subrange(start as int, i as int).push(chars@[i as int]));
        }
        i = i + 1;
    }
    name
}

/// What becomes of a websocket upgrade request.
#[derive(Debug)]
pub enum RequestVerdict {
    /// Not a NetworkTables upgrade request; it is answered with a plain page.
    Reject,
    /// An upgrade to the round-trip-time protocol, which only gets the
    /// upgrade.
    RoundTrip,
    /// An upgrade of a client of the given name.
    Client(String),
}

/// The verdict on an upgrade request: it must be a GET over HTTP/1.1, with an
/// `Upgrade` header that names websocket and a websocket key, and a
/// sub-protocol header naming the round-trip-time protocol or NetworkTables
/// (either case).
pub open spec fn verdict(
    is_get: bool,
    is_http11: bool,
    upgrade: Option<Seq<char>>,
    has_key: bool,
    protocol: Option<Seq<char>>,
    path: Seq<char>,
) -> Option<Option<Seq<char>>> {
    if !is_get || !is_http11 || !(upgrade matches Some(u) && has_infix(ascii_lower(u), "websocket"@)) || !has_key {
        None
    } else {
        match protocol {
            Some(p) => if has_infix(ascii_lower(p), "rtt.networktables.first.wpi.edu"@) {
                Some(None)
            } else if has_infix(ascii_lower(p), "networktables"@) {
                Some(Some(trim_nt(path)))
            } else {
                None
            },
            None => None,
        }
    }
}

/// A verdict as an option: `None` to refuse, `Some(None)` for the
/// round-trip-time protocol, `Some(Some(name))` for a client.
pub open spec fn verdict_model(v: RequestVerdict) -> Option<Option<Seq<char>>> {
    match v {
        RequestVerdict::Reject => None,
        RequestVerdict::RoundTrip => Some(None),
        RequestVerdict::Client(name) => Some(Some(name@)),
    }
}

/// Judges an upgrade request from its method, version, `Upgrade` header,
/// whether it has a websocket key, its sub-protocol header and its path.
pub fn judge_request(
    is_get: bool,
    is_http11: bool,
    upgrade: Option<&str>,
    has_key: bool,
    protocol: Option<&str>,
    path: &str,
) -> (v: RequestVerdict)
    ensures
        verdict_model(v) == verdict(
            is_get,
            is_http11,
            match upgrade {
                Some(u) => Some(u@),
                None => None,
            },
            has_key,
            match protocol {
                Some(p) => Some(p@),
                None => None,
            },
            path@,
        ),
{
    let upgrade_ok = match upgrade {
        Some(u) => contains_str(to_ascii_lower(u).as_str(), "websocket"),
        None => false,
    };
    if !is_get || !is_http11 || !upgrade_ok || !has_key {
        return RequestVerdict::Reject;
    }
    match protocol {
        Some(p) => {
            let lower = to_ascii_lower(p);
            if contains_str(lower.as_str(), "rtt.networktables.first.wpi.edu") {
                RequestVerdict::RoundTrip
            } else if contains_str(lower.as_str(), "networktables") {
                RequestVerdict::Client(client_name_of(path))
            } else {
                RequestVerdict::Reject
            }
        },
        None => RequestVerdict::Reject,
    }
}

/// The `Sec-WebSocket-Accept` value that `tungstenite` derives from a
/// request's `Sec-WebSocket-Key`.
pub uninterp spec fn derived_accept_key(key: Seq<u8>) -> Seq<char>;

/// Calls `tungstenite::handshake::derive_accept_key` (the base64 of the SHA-1
/// of the key followed by the WebSocket GUID); the contract names its result,
/// which depends on the key alone.
#[verifier::external_body]
fn accept_key(key: &[u8]) -> (s: String)
    ensures
        s@ == derived_accept_key(key@),
{
    tungstenite::handshake::derive_accept_key(key)
}

/// The accept value of a handshake answering the request's key, if it sent
/// one.
pub fn handshake_accept(key: Option<&[u8]>) -> (r: Option<String>)
    ensures
        match key {
            Some(k) => r matches Some(s) && s@ == derived_accept_key(k@),
            None => r is None,
        },
{
    match key {
        Some(k) => Some(accept_key(k)),
        None => None,
    }
}

/// The last item of a MessagePack array, as far as time sync is concerned.
#[derive(Debug, Clone, Copy, PartialEq, Eq)]
pub enum LastItem {
    /// The bytes do not start with a readable array, or the array is empty.
    Unreadable,
    /// An integer, and its value if it is not negative.
    Integer(Option<u64>),
    /// Anything else.
    Other,
}

/// The last item of the MessagePack array that `data` starts with.
pub uninterp spec fn decoded_last_item(data: Seq<u8>) -> LastItem;

/// Calls `rmp_serde::decode::from_read` for an `rmpv::Value` on the bytes,
/// and reports the shape of the last item of the array it reads; the contract
/// only names that result, which depends on the bytes alone.
#[verifier::external_body]
fn last_item_of(data: &[u8]) -> (item: LastItem)
    ensures
        item == decoded_last_item(data@),
{
    let mut queue = std::collections::VecDeque::from(data.to_vec());
    match rmp_serde::decode::from_read::<_, rmpv::Value>(&mut queue) {
        Ok(rmpv::Value::Array(items)) => match items.last() {
            Some(rmpv::Value::Integer(n)) => LastItem::Integer(n.as_u64()),
            Some(_) => LastItem::Other,
            None => LastItem::Unreadable,
        },
        _ => LastItem::Unreadable,
    }
}

/// What becomes of a binary message a client sends.
#[derive(Debug, Clone, Copy, PartialEq, Eq)]
pub enum BinaryFate {
    /// Dropped: too short, or not an array.
    Drop,
    /// A time-sync request; the reply echoes this client time.
    TimeSync(u64),
    /// Handed on to the server as values.
    Forward,
}

/// The fate of a binary message: shorter than 2 bytes, or not starting with a
/// four-item array, it is dropped; with a 32-bit signed id (a time-sync
/// request) whose last item is an integer, it gets a time reply (0 for a
/// negative one), and with another last item it is dropped; anything else is
/// handed on.
pub open spec fn binary_fate(data: Seq<u8>, last: LastItem) -> BinaryFate {
    if data.len() < 2 || data[0] != 148 {
        BinaryFate::Drop
    } else if data[1] == 210 {
        match last {
            LastItem::Integer(Some(t)) => BinaryFate::TimeSync(t),
            LastItem::Integer(None) => BinaryFate::TimeSync(0),
            LastItem::Other => BinaryFate::Drop,
            LastItem::Unreadable => BinaryFate::Forward,
        }
    } else {
        BinaryFate::Forward
    }
}

/// The fate of a binary message whose array's last item is `last`.
pub fn fate_of(data: &[u8], last: LastItem) -> (f: BinaryFate)
    ensures
        f == binary_fate(data@, last),
{
    if data.len() < 2 || data[0] != 148 {
        BinaryFate::Drop
    } else if data[1] == 210 {
        match last {
            LastItem::Integer(Some(t)) => BinaryFate::TimeSync(t),
            LastItem::Integer(None) => BinaryFate::TimeSync(0),
            LastItem::Other => BinaryFate::Drop,
            LastItem::Unreadable => BinaryFate::Forward,
        }
    } else {
        BinaryFate::Forward
    }
}

/// Decides what becomes of a binary message a client sends; a time-sync
/// request is read as MessagePack.
pub fn classify_binary(data: &[u8]) -> (f: BinaryFate)
    ensures
        data@.len() >= 2 && data@[0] == 148 && data@[1] == 210 ==> f == binary_fate(data@, decoded_last_item(data@)),
        !(data@.len() >= 2 && data@[0] == 148 && data@[1] == 210) ==> f == binary_fate(data@, LastItem::Unreadable),
{
    if data.len() >= 2 && data[0] == 148 && data[1] == 210 {
        let last = last_item_of(data);
        fate_of(data, last)
    } else {
        fate_of(data, LastItem::Unreadable)
    }
}

/// The reply to a time-sync request with client time `client_time`, stamped
/// with the server's clock; `None` if the clock cannot be read.
pub fn time_sync_reply(client_time: u64) -> (reply: Option<Vec<u8>>)
    ensures
        reply matches Some(b) ==> exists|t: u64| b@ == #[trigger] value_header(-1i32, t, 2) + uint_bytes(client_time),
{
    match crate::now() {
        Some(t) => Some(encode_time_sync_reply(t, client_time)),
        None => None,
    }
}

/// Whether an outgoing binary message is the request to flush: the five
/// bytes `flush`.
pub fn is_flush(bin: &[u8]) -> (b: bool)
    ensures
        b == (bin@ == seq![102u8, 108u8, 117u8, 115u8, 104u8]),
{
    let r = bin.len() == 5 && bin[0] == 102 && bin[1] == 108 && bin[2] == 117 && bin[3] == 115 && bin[4] == 104;
    proof {
        if r {
            assert(bin@ =~= seq![102u8, 108u8, 117u8, 115u8, 104u8]);
        }
    }
    r
}

} // verus!
