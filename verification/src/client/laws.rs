//! Properties of the client: its ids, its topic names, its clock, and how its
//! value messages fare at a server.

use vstd::prelude::*;

use crate::client::naming::{cleaned, colons_as_slashes, without_dollars, without_double_slashes};
use crate::client::state::{client_value_message, next_i32_id, next_u32_id, synced_offset, UnsignedIntOrNegativeOne};
use crate::frc_type::FrcType;
use crate::msgpack::{array_len_bytes, i32_bytes, u32_bytes};
use crate::server::connection::{binary_fate, BinaryFate, LastItem};

verus! {

/// A fresh publisher id is never 0 and never the last one handed out; a fresh
/// subscription id after a non-negative one is positive and new.
pub proof fn law_fresh_ids(pub_counter: u32, sub_counter: i32)
    ensures
        next_u32_id(pub_counter) != 0,
        next_u32_id(pub_counter) != pub_counter,
        sub_counter >= 0 ==> next_i32_id(sub_counter) > 0 && next_i32_id(sub_counter) != sub_counter,
{
}

/// Removing `//` keeps only characters of the text.
proof fn lemma_double_slashes_subset(s: Seq<char>, c: char)
    requires
        !s.contains(c),
    ensures
        !without_double_slashes(s).contains(c),
    decreases s.len(),
{
    if s.len() > 0 {
        if s.len() >= 2 && s[0] == '/' && s[1] == '/' {
            let rest = s.subrange(2, s.len() as int);
            assert(!rest.contains(c)) by {
                if rest.contains(c) {
                    let i = choose|i: int| 0 <= i < rest.len() && rest[i] == c;
                    assert(s[i + 2] == c);
                }
            }
            lemma_double_slashes_subset(rest, c);
        } else {
            let rest = s.subrange(1, s.len() as int);
            assert(!rest.contains(c)) by {
                if rest.contains(c) {
                    let i = choose|i: int| 0 <= i < rest.len() && rest[i] == c;
                    assert(s[i + 1] == c);
                }
            }
            lemma_double_slashes_subset(rest, c);
            let out = seq![s[0]] + without_double_slashes(rest);
            assert(!out.contains(c)) by {
                if out.contains(c) {
                    let i = choose|i: int| 0 <= i < out.len() && out[i] == c;
                    if i == 0 {
                        assert(s[0] == c);
                    } else {
                        assert(without_double_slashes(rest)[i - 1] == c);
                    }
                }
            }
        }
    }
}

/// A cleaned topic name holds neither `$` nor `:`.
pub proof fn law_cleaned_name(name: Seq<char>)
    ensures
        !cleaned(name).contains('$'),
        !cleaned(name).contains(':'),
{
    let a = without_dollars(name);
    assert(!a.contains('$')) by {
        if a.contains('$') {
            let i = choose|i: int| 0 <= i < a.len() && a[i] == '$';
            name.filter_lemma(|c: char| c != '$');
        }
    }
    lemma_double_slashes_subset(a, '$');
    let b = without_double_slashes(a);
    let c = colons_as_slashes(b);
    assert(!c.contains('$')) by {
        if c.contains('$') {
            let i = choose|i: int| 0 <= i < c.len() && c[i] == '$';
            assert(b[i] == '$');
        }
    }
    assert(!c.contains(':')) by {
        if c.contains(':') {
            let i = choose|i: int| 0 <= i < c.len() && c[i] == ':';
        }
    }
}

/// A synced offset puts the server's time at receipt at the client's receipt
/// time plus the offset: the server's answer plus half the round trip.
pub proof fn law_synced_offset(receive_time: u64, server_time: u64, client_time: i64)
    requires
        synced_offset(receive_time, server_time, client_time) is Some,
    ensures
        receive_time + synced_offset(receive_time, server_time, client_time)->0 + (receive_time - (client_time as u64)) / 2
            == server_time,
{
}

/// At a server, a client's value message for one of its publisher ids is
/// handed on as values, and its message for the time topic with an integer
/// client time is answered as a time-sync request.
pub proof fn law_client_frames_at_server(pubuid: u32, ty: FrcType, timestamp: u32, value: Seq<u8>, last: LastItem, t: u64)
    ensures
        binary_fate(client_value_message(UnsignedIntOrNegativeOne::UnsignedInt(pubuid), ty, timestamp, value), last)
            == BinaryFate::Forward,
        binary_fate(
            client_value_message(UnsignedIntOrNegativeOne::NegativeOne, ty, timestamp, value),
            LastItem::Integer(Some(t)),
        ) == BinaryFate::TimeSync(t),
{
    let m1 = client_value_message(UnsignedIntOrNegativeOne::UnsignedInt(pubuid), ty, timestamp, value);
    let m2 = client_value_message(UnsignedIntOrNegativeOne::NegativeOne, ty, timestamp, value);
    assert(array_len_bytes(4) == seq![148u8]);
    assert(u32_bytes(pubuid)[0] == 0xceu8);
    assert(i32_bytes(-1i32)[0] == 0xd2u8);
    assert(m1[0] == 148u8 && m1[1] == 0xceu8);
    assert(m2[0] == 148u8 && m2[1] == 0xd2u8);
}

} // verus!
