//! The value arrays in a binary message that a server sends: reading them one
//! after another.

use vstd::prelude::*;
use vstd::slice::slice_subrange;

use crate::client::state::ValueArray;
use rmpv::Value;

verus! {

/// The value that `rmp_serde` reads as an `rmpv::Value` from the front of
/// `data`, with the number of bytes left after it: for an array, what the
/// client reads of it and the MessagePack encoding of its fourth item (empty
/// if it has none); for anything else, `None`. `None` overall where no value
/// reads.
pub uninterp spec fn decoded_value_array(data: Seq<u8>) -> Option<(Option<(ValueArray, Seq<u8>)>, nat)>;

/// Calls `rmp_serde::decode::from_read` for an `rmpv::Value` on the bytes
/// and takes an array apart (re-encoding its fourth item with
/// `rmpv::encode::write_value`); the contract only names the result, which
/// depends on the bytes alone.
#[verifier::external_body]
fn read_value_array(data: &[u8]) -> (r: Option<(Option<(ValueArray, Vec<u8>)>, usize)>)
    ensures
        match r {
            Some((Some((a, item)), left)) => decoded_value_array(data@) == Some((Some((a, item@)), left as nat)),
            Some((None, left)) => decoded_value_array(data@) == Some((None::<(ValueArray, Seq<u8>)>, left as nat)),
            None => decoded_value_array(data@) is None,
        },
{
    let mut rest = data;
    let Value::Array(items) = rmp_serde::decode::from_read(&mut rest).ok()? else { return Some((None, rest.len())) };
    let mut item = Vec::new();
    if let Some(v) = items.get(3) {
        rmpv::encode::write_value(&mut item, v).ok()?;
    }
    let read = ValueArray {
        len: items.len(),
        id: items.first().and_then(Value::as_i64),
        timestamp: items.get(1).and_then(Value::as_u64),
        type_idx: items.get(2).and_then(Value::as_u64),
        data_int: items.get(3).and_then(Value::as_i64),
    };
    Some((Some((read, item)), rest.len()))
}

/// The arrays of a binary message, in order, each with the encoding of its
/// fourth item: each value is read from the front of what is left until no
/// value reads (a value read without using a byte is the last); values that
/// are not arrays are passed over.
pub open spec fn value_arrays(data: Seq<u8>) -> Seq<(ValueArray, Seq<u8>)>
    decreases data.len(),
{
    match decoded_value_array(data) {
        None => Seq::empty(),
        Some((f, left)) => {
            let here = match f {
                Some(p) => seq![p],
                None => Seq::empty(),
            };
            if left < data.len() {
                here + value_arrays(data.subrange(data.len() - left, data.len() as int))
            } else {
                here
            }
        },
    }
}

/// An array with the encoding of its fourth item, as plain values.
pub open spec fn array_view(p: (ValueArray, Vec<u8>)) -> (ValueArray, Seq<u8>) {
    (p.0, p.1@)
}

/// Reads the value arrays of a binary message from the server (see
/// `value_arrays`), each with the MessagePack encoding of its fourth item.
pub fn client_value_arrays(data: &[u8]) -> (r: Vec<(ValueArray, Vec<u8>)>)
    ensures
        r@.map_values(|p: (ValueArray, Vec<u8>)| array_view(p)) == value_arrays(data@),
{
    let n = data.len();
    let mut out: Vec<(ValueArray, Vec<u8>)> = Vec::new();
    let mut pos: usize = 0;
    proof {
        assert(data@.subrange(0, n as int) =~= data@);
        assert(out@.map_values(|p: (ValueArray, Vec<u8>)| array_view(p)) + value_arrays(data@) =~= value_arrays(data@));
    }
    loop
        invariant
            n == data@.len(),
            pos <= n,
            out@.map_values(|p: (ValueArray, Vec<u8>)| array_view(p)) + value_arrays(data@.subrange(pos as int, n as int))
                == value_arrays(data@),
        decreases n - pos,
    {
        let ghost before = out@.map_values(|p: (ValueArray, Vec<u8>)| array_view(p));
        let ghost rest_seq = data@.subrange(pos as int, n as int);
        let rest = slice_subrange(data, pos, n);
        let (f, left) = match read_value_array(rest) {
            None => {
                proof {
                    assert(before + value_arrays(rest_seq) =~= before);
                }
                return out;
            },
            Some(p) => p,
        };
        let last_one = left >= rest.len();
        let ghost next = if last_one {
            Seq::<(ValueArray, Seq<u8>)>::empty()
        } else {
            value_arrays(data@.subrange(n - left, n as int))
        };
        proof {
            if !last_one {
                assert(rest_seq.subrange(rest_seq.len() - left, rest_seq.len() as int) =~= data@.subrange(
                    n - left,
                    n as int,
                ));
            }
        }
        match f {
            Some(p) => {
                let ghost pv = array_view(p);
                out.push(p);
                proof {
                    assert(value_arrays(rest_seq) == seq![pv] + next);
                    assert(out@.map_values(|p: (ValueArray, Vec<u8>)| array_view(p)) =~= before.push(pv));
                    assert(before.push(pv) + next =~= before + (seq![pv] + next));
                }
            },
            None => {
                proof {
                    assert(value_arrays(rest_seq) =~= next);
                }
            },
        }
        if last_one {
            proof {
                assert(out@.map_values(|p: (ValueArray, Vec<u8>)| array_view(p)) + Seq::<(ValueArray, Seq<u8>)>::empty()
                    =~= out@.map_values(|p: (ValueArray, Vec<u8>)| array_view(p)));
            }
            return out;
        }
        pos = n - left;
    }
}

} // verus!
