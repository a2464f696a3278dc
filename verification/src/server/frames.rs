//! The values in a binary message that a client sends: reading them one
//! after another and setting the topics they are published to.

use vstd::prelude::*;
use vstd::slice::slice_subrange;

use crate::frc_type::{type_string, FrcType};
use crate::server::delivery::published_topic;
use crate::server::model::{set_value_spec, ServerModel};
use crate::server::state::ServerState;
use crate::server::util::{ClientIdx, TimestampedValue};
use crate::text::same_text;

verus! {

/// One MessagePack value read from a binary message, as far as the server
/// reads it.
#[derive(Debug)]
pub enum Frame {
    /// A value that is not an array.
    NotArray,
    /// An array: its number of items, its first two items where they are
    /// unsigned integers that fit in 64 bits, and the MessagePack encoding of
    /// its last item (empty for an empty array).
    Array { len: usize, first: Option<u64>, second: Option<u64>, last: Vec<u8> },
}

/// A frame as a plain value.
pub enum FrameModel {
    NotArray,
    Array { len: nat, first: Option<u64>, second: Option<u64>, last: Seq<u8> },
}

impl Frame {
    /// This frame as a plain value.
    pub open spec fn model(&self) -> FrameModel {
        match self {
            Frame::NotArray => FrameModel::NotArray,
            Frame::Array { len, first, second, last } => FrameModel::Array {
                len: *len as nat,
                first: *first,
                second: *second,
                last: last@,
            },
        }
    }
}

/// The value that `rmp_serde` reads as an `rmpv::Value` from the front of
/// `data`, as a frame, with the number of bytes left after it; `None` where no
/// value reads.
pub uninterp spec fn decoded_frame(data: Seq<u8>) -> Option<(FrameModel, nat)>;

/// Calls `rmp_serde::decode::from_read` for an `rmpv::Value` on the bytes,
/// then takes the value apart into a frame (re-encoding its last item with
/// `rmpv::encode::write_value`); the contract only names the result, which
/// depends on the bytes alone.
#[verifier::external_body]
fn read_frame(data: &[u8]) -> (r: Option<(Frame, usize)>)
    ensures
        match r {
            Some((f, left)) => decoded_frame(data@) == Some((f.model(), left as nat)),
            None => decoded_frame(data@) is None,
        },
{
    let mut rest = data;
    let value = rmp_serde::decode::from_read::<_, rmpv::Value>(&mut rest).ok()?;
    let rmpv::Value::Array(items) = value else { return Some((Frame::NotArray, rest.len())) };
    let mut last = Vec::new();
    if let Some(item) = items.last() {
        rmpv::encode::write_value(&mut last, item).ok()?;
    }
    let first = items.first().and_then(rmpv::Value::as_u64);
    let second = items.get(1).and_then(rmpv::Value::as_u64);
    Some((Frame::Array { len: items.len(), first, second, last }, rest.len()))
}

/// The name of the type (as `frclib_core`'s `FrcType` displays it) and the
/// MessagePack encoding of the `FrcValue` that `frclib_core` makes of the
/// MessagePack value `item`; `None` where it makes none.
pub uninterp spec fn frc_value_of(item: Seq<u8>) -> Option<(Seq<char>, Seq<u8>)>;

/// Reads `item` as an `rmpv::Value`, calls `FrcValue::try_from` on it, and
/// gives the displayed name of the value's type with the encoding of
/// `rmpv::Value::from` the value; the contract only names the result, which
/// depends on the bytes alone.
#[verifier::external_body]
fn frc_value(item: &[u8]) -> (r: Option<(String, Vec<u8>)>)
    ensures
        match r {
            Some((name, bytes)) => frc_value_of(item@) == Some((name@, bytes@)),
            None => frc_value_of(item@) is None,
        },
{
    let mut rest = item;
    let value = rmp_serde::decode::from_read::<_, rmpv::Value>(&mut rest).ok()?;
    let frc = frclib_core::value::FrcValue::try_from(value).ok()?;
    let name = frc.get_type().to_string();
    let mut bytes = Vec::new();
    rmpv::encode::write_value(&mut bytes, &rmpv::Value::from(frc)).ok()?;
    Some((name, bytes))
}

/// The type that `frclib_core` displays as `name`, among the types a
/// MessagePack value can be read as.
pub open spec fn type_named(name: Seq<char>) -> Option<FrcType> {
    if name == "Void"@ {
        Some(FrcType::Void)
    } else if name == "Boolean"@ {
        Some(FrcType::Boolean)
    } else if name == "Int"@ {
        Some(FrcType::Int)
    } else if name == "Double"@ {
        Some(FrcType::Double)
    } else if name == "Float"@ {
        Some(FrcType::Float)
    } else if name == "String"@ {
        Some(FrcType::String)
    } else if name == "Raw"@ {
        Some(FrcType::Raw)
    } else if name == "BooleanArray"@ {
        Some(FrcType::BooleanArray)
    } else if name == "IntArray"@ {
        Some(FrcType::IntArray)
    } else if name == "FloatArray"@ {
        Some(FrcType::FloatArray)
    } else if name == "DoubleArray"@ {
        Some(FrcType::DoubleArray)
    } else if name == "StringArray"@ {
        Some(FrcType::StringArray)
    } else {
        None
    }
}

/// A character in ASCII lower case.
pub open spec fn lower_char(c: char) -> char {
    if 'A' <= c && c <= 'Z' {
        ((c as u32) + 32) as char
    } else {
        c
    }
}

/// A text in ASCII lower case.
pub open spec fn lower(s: Seq<char>) -> Seq<char> {
    Seq::new(s.len(), |i: int| lower_char(s[i]))
}

/// The NT4 type string that a `frclib_core` type name stands for: the name in
/// lower case, and for a name ending in `Array` the rest in lower case
/// followed by `[]`.
pub open spec fn nt4_type_of_name(name: Seq<char>) -> Seq<char> {
    if name.len() >= 5 && name.subrange(name.len() - 5, name.len() as int) == "Array"@ {
        lower(name.subrange(0, name.len() - 5)) + "[]"@
    } else {
        lower(name)
    }
}

/// The name `frclib_core`'s `Display` gives a type that is not a struct.
pub open spec fn frc_display_name(t: FrcType) -> Seq<char> {
    match t {
        FrcType::Void => "Void"@,
        FrcType::Boolean => "Boolean"@,
        FrcType::Int => "Int"@,
        FrcType::Double => "Double"@,
        FrcType::Float => "Float"@,
        FrcType::String => "String"@,
        FrcType::BooleanArray => "BooleanArray"@,
        FrcType::IntArray => "IntArray"@,
        FrcType::FloatArray => "FloatArray"@,
        FrcType::DoubleArray => "DoubleArray"@,
        FrcType::StringArray => "StringArray"@,
        FrcType::Raw => "Raw"@,
        FrcType::Struct(_) => "Struct"@,
        FrcType::StructArray(_) => "StructArray"@,
    }
}

/// The type read from a value is the type `frclib_core` names: every type
/// that is not a struct is read back from its displayed name, and a name
/// read as a type (other than `Void`, sent as raw) has, as its NT4 type
/// string, the name in lower case, with `[]` for `Array`. So a `Float` is
/// a `float` and never a `double`.
pub proof fn law_type_names_read_as_their_types(name: Seq<char>, t: FrcType)
    ensures
        !(t is Struct) && !(t is StructArray) ==> type_named(frc_display_name(t)) == Some(t),
        type_named(name) matches Some(ty) ==> (name == "Void"@ && ty == FrcType::Void) || type_string(ty)
            == nt4_type_of_name(name),
{
    reveal_strlit("Void");
    reveal_strlit("Boolean");
    reveal_strlit("Int");
    reveal_strlit("Double");
    reveal_strlit("Float");
    reveal_strlit("String");
    reveal_strlit("Raw");
    reveal_strlit("BooleanArray");
    reveal_strlit("IntArray");
    reveal_strlit("FloatArray");
    reveal_strlit("DoubleArray");
    reveal_strlit("StringArray");
    reveal_strlit("Struct");
    reveal_strlit("StructArray");
    reveal_strlit("Array");
    reveal_strlit("[]");
    reveal_strlit("boolean");
    reveal_strlit("int");
    reveal_strlit("double");
    reveal_strlit("float");
    reveal_strlit("string");
    reveal_strlit("raw");
    reveal_strlit("boolean[]");
    reveal_strlit("int[]");
    reveal_strlit("float[]");
    reveal_strlit("double[]");
    reveal_strlit("string[]");
    assert("Void"@.len() == 4 && "Int"@.len() == 3 && "Raw"@.len() == 3 && "Float"@.len() == 5);
    assert("Double"@.len() == 6 && "String"@.len() == 6 && "Boolean"@.len() == 7 && "IntArray"@.len() == 8);
    assert("FloatArray"@.len() == 10 && "DoubleArray"@.len() == 11 && "StringArray"@.len() == 11);
    assert("BooleanArray"@.len() == 12);
    assert("Int"@[0] != "Raw"@[0]);
    assert("Double"@[0] != "String"@[0]);
    assert("DoubleArray"@[0] != "StringArray"@[0]);
    if type_named(name) is Some {
        let n = name;
        if n.len() >= 5 {
            assert(n.subrange(n.len() - 5, n.len() as int)[0] == n[n.len() - 5]);
        }
        if n == "Boolean"@ {
            assert(nt4_type_of_name(n) =~= "boolean"@);
        } else if n == "Int"@ {
            assert(nt4_type_of_name(n) =~= "int"@);
        } else if n == "Double"@ {
            assert(nt4_type_of_name(n) =~= "double"@);
        } else if n == "Float"@ {
            assert(nt4_type_of_name(n) =~= "float"@);
        } else if n == "String"@ {
            assert(nt4_type_of_name(n) =~= "string"@);
        } else if n == "Raw"@ {
            assert(nt4_type_of_name(n) =~= "raw"@);
        } else if n == "BooleanArray"@ {
            assert(n.subrange(7, 12) =~= "Array"@);
            assert(lower(n.subrange(0, 7)) =~= "boolean"@);
            assert(nt4_type_of_name(n) =~= "boolean[]"@);
        } else if n == "IntArray"@ {
            assert(n.subrange(3, 8) =~= "Array"@);
            assert(lower(n.subrange(0, 3)) =~= "int"@);
            assert(nt4_type_of_name(n) =~= "int[]"@);
        } else if n == "FloatArray"@ {
            assert(n.subrange(5, 10) =~= "Array"@);
            assert(lower(n.subrange(0, 5)) =~= "float"@);
            assert(nt4_type_of_name(n) =~= "float[]"@);
        } else if n == "DoubleArray"@ {
            assert(n.subrange(6, 11) =~= "Array"@);
            assert(lower(n.subrange(0, 6)) =~= "double"@);
            assert(nt4_type_of_name(n) =~= "double[]"@);
        } else if n == "StringArray"@ {
            assert(n.subrange(6, 11) =~= "Array"@);
            assert(lower(n.subrange(0, 6)) =~= "string"@);
            assert(nt4_type_of_name(n) =~= "string[]"@);
        }
    }
}

/// The type displayed as `name`.
fn type_of_name(name: &str) -> (t: Option<FrcType>)
    ensures
        t == type_named(name@),
{
    if same_text(name, "Void") {
        Some(FrcType::Void)
    } else if same_text(name, "Boolean") {
        Some(FrcType::Boolean)
    } else if same_text(name, "Int") {
        Some(FrcType::Int)
    } else if same_text(name, "Double") {
        Some(FrcType::Double)
    } else if same_text(name, "Float") {
        Some(FrcType::Float)
    } else if same_text(name, "String") {
        Some(FrcType::String)
    } else if same_text(name, "Raw") {
        Some(FrcType::Raw)
    } else if same_text(name, "BooleanArray") {
        Some(FrcType::BooleanArray)
    } else if same_text(name, "IntArray") {
        Some(FrcType::IntArray)
    } else if same_text(name, "FloatArray") {
        Some(FrcType::FloatArray)
    } else if same_text(name, "DoubleArray") {
        Some(FrcType::DoubleArray)
    } else if same_text(name, "StringArray") {
        Some(FrcType::StringArray)
    } else {
        None
    }
}

/// The frames of a binary message, in order: each value read from the front
/// of what is left, until no value reads (a value read without using a byte
/// is the last).
pub open spec fn frames(data: Seq<u8>) -> Seq<FrameModel>
    decreases data.len(),
{
    match decoded_frame(data) {
        None => Seq::empty(),
        Some((f, left)) => {
            if left < data.len() {
                seq![f] + frames(data.subrange(data.len() - left, data.len() as int))
            } else {
                seq![f]
            }
        },
    }
}

/// A request to set a value: the publisher id, the timestamp, the type and
/// the encoded value.
pub type ValueRequest = (u32, u64, FrcType, Seq<u8>);

/// What a frame asks: `None` for a value that is not an array, which is
/// passed over; `Some(None)` for an array the server cannot read (fewer than
/// three items, a first item that is not an unsigned 32-bit integer, a second
/// that is not an unsigned 64-bit integer, or a last item that `frclib_core`
/// makes no value of), where reading stops; else the request, with the value
/// as `frclib_core` gives it.
pub open spec fn frame_request(f: FrameModel) -> Option<Option<ValueRequest>> {
    match f {
        FrameModel::NotArray => None,
        FrameModel::Array { len, first, second, last } => Some(
            if len < 3 {
                None
            } else {
                match (first, second, frc_value_of(last)) {
                    (Some(u), Some(ts), Some((name, bytes))) => {
                        if u <= u32::MAX {
                            match type_named(name) {
                                Some(t) => Some((u as u32, ts, t, bytes)),
                                None => None,
                            }
                        } else {
                            None
                        }
                    },
                    _ => None,
                }
            },
        ),
    }
}

/// The requests of some frames, in order, up to the first frame that cannot
/// be read; and whether there was one.
pub open spec fn requests(fs: Seq<FrameModel>) -> (Seq<ValueRequest>, bool)
    decreases fs.len(),
{
    if fs.len() == 0 {
        (Seq::empty(), false)
    } else {
        let (r, stopped) = requests(fs.drop_last());
        if stopped {
            (r, true)
        } else {
            match frame_request(fs.last()) {
                None => (r, false),
                Some(None) => (r, true),
                Some(Some(q)) => (r.push(q), false),
            }
        }
    }
}

/// A request made of a publisher id and a value.
pub open spec fn request_of(p: (u32, TimestampedValue)) -> ValueRequest {
    (p.0, p.1.timestamp, p.1.ty, p.1.value@)
}

/// The server after values are set, one after another, by client `c` under
/// publisher ids: a value under an id the client did not register changes
/// nothing.
pub open spec fn apply_all(m: ServerModel, c: ClientIdx, vs: Seq<(u32, TimestampedValue)>) -> ServerModel
    decreases vs.len(),
{
    if vs.len() == 0 {
        m
    } else {
        let m1 = apply_all(m, c, vs.drop_last());
        match published_topic(m1, c, vs.last().0) {
            None => m1,
            Some(t) => set_value_spec(m1, vs.last().1, t).0,
        }
    }
}

/// A frame's stripped-off rest: `frames` of the whole is the frame followed
/// by `frames` of what is left.
proof fn lemma_frames_step(data: Seq<u8>, pos: int, f: FrameModel, left: nat)
    requires
        0 <= pos <= data.len(),
        decoded_frame(data.subrange(pos, data.len() as int)) == Some((f, left)),
        left < data.len() - pos,
    ensures
        frames(data.subrange(pos, data.len() as int)) == seq![f] + frames(
            data.subrange(data.len() - left, data.len() as int),
        ),
{
    let rest = data.subrange(pos, data.len() as int);
    assert(rest.subrange(rest.len() - left, rest.len() as int) =~= data.subrange(
        data.len() - left,
        data.len() as int,
    ));
}

/// Once a frame cannot be read, later frames ask nothing more.
proof fn lemma_requests_stopped(a: Seq<FrameModel>, b: Seq<FrameModel>)
    requires
        requests(a).1,
    ensures
        requests(a + b) == requests(a),
    decreases b.len(),
{
    if b.len() > 0 {
        lemma_requests_stopped(a, b.drop_last());
        assert((a + b).drop_last() =~= a + b.drop_last());
    }
}

/// The request a frame makes (see `frame_request`).
fn read_request(f: Frame) -> (r: Option<Option<(u32, TimestampedValue)>>)
    ensures
        match frame_request(f.model()) {
            None => r is None,
            Some(None) => r matches Some(None),
            Some(Some(q)) => r matches Some(Some(p)) && request_of(p) == q,
        },
{
    match f {
        Frame::NotArray => None,
        Frame::Array { len, first, second, last } => {
            if len < 3 {
                return Some(None);
            }
            let u = match first {
                Some(u) => {
                    if u > 0xffff_ffffu64 {
                        return Some(None);
                    }
                    u as u32
                },
                None => {
                    return Some(None);
                },
            };
            let ts = match second {
                Some(ts) => ts,
                None => {
                    return Some(None);
                },
            };
            let (name, bytes) = match frc_value(last.as_slice()) {
                Some(p) => p,
                None => {
                    return Some(None);
                },
            };
            let ty = match type_of_name(name.as_str()) {
                Some(t) => t,
                None => {
                    return Some(None);
                },
            };
            Some(Some((u, TimestampedValue { timestamp: ts, ty, value: bytes })))
        },
    }
}

impl ServerState {
    /// Sets the values of a binary message that client `c` sent, frame by
    /// frame in order (see `frames` and `frame_request`), each through its
    /// publisher id as `apply_value` does; returns whether it stopped at a
    /// frame it cannot read.
    pub fn apply_binary(&mut self, c: ClientIdx, data: &[u8]) -> (stopped: bool)
        requires
            old(self).wf(),
        ensures
            final(self).wf(),
            stopped == requests(frames(data@)).1,
            exists|vs: Seq<(u32, TimestampedValue)>|
                #![trigger apply_all(old(self).model(), c, vs)]
                vs.map_values(|p: (u32, TimestampedValue)| request_of(p)) == requests(frames(data@)).0
                    && final(self).model() == apply_all(old(self).model(), c, vs),
            final(self).metatopic_value_map == old(self).metatopic_value_map,
    {
        let ghost m0 = self.model();
        let ghost all = frames(data@);
        let ghost mut done: Seq<FrameModel> = Seq::empty();
        let ghost mut vs: Seq<(u32, TimestampedValue)> = Seq::empty();
        let n = data.len();
        let mut pos: usize = 0;
        proof {
            assert(data@.subrange(0, n as int) =~= data@);
            assert(done + all =~= all);
        }
        loop
            invariant
                n == data@.len(),
                pos <= n,
                self.wf(),
                all == frames(data@),
                all == done + frames(data@.subrange(pos as int, n as int)),
                requests(done) == (vs.map_values(|p: (u32, TimestampedValue)| request_of(p)), false),
                self.model() == apply_all(m0, c, vs),
                self.metatopic_value_map == old(self).metatopic_value_map,
                m0 == old(self).model(),
            decreases n - pos,
        {
            let ghost rest_seq = data@.subrange(pos as int, n as int);
            let rest = slice_subrange(data, pos, n);
            let (f, left) = match read_frame(rest) {
                None => {
                    proof {
                        assert(frames(rest_seq) == Seq::<FrameModel>::empty());
                        assert(done + Seq::<FrameModel>::empty() =~= done);
                    }
                    return false;
                },
                Some(p) => p,
            };
            let ghost fm = f.model();
            let last_one = left >= rest.len();
            proof {
                if last_one {
                    assert(frames(rest_seq) == seq![fm]);
                } else {
                    lemma_frames_step(data@, pos as int, fm, left as nat);
                }
                assert(done.push(fm).drop_last() =~= done);
                assert(done.push(fm).last() == fm);
            }
            match read_request(f) {
                None => {},
                Some(None) => {
                    proof {
                        let next = if last_one {
                            Seq::<FrameModel>::empty()
                        } else {
                            frames(data@.subrange(n - left, n as int))
                        };
                        assert(all =~= done.push(fm) + next);
                        lemma_requests_stopped(done.push(fm), next);
                    }
                    return true;
                },
                Some(Some((u, value))) => {
                    let ghost gv = value;
                    let _ = self.apply_value(c, u, value);
                    proof {
                        let old_vs = vs;
                        vs = vs.push((u, gv));
                        assert(vs.drop_last() =~= old_vs);
                        assert(vs.map_values(|p: (u32, TimestampedValue)| request_of(p)) =~= old_vs.map_values(
                            |p: (u32, TimestampedValue)| request_of(p),
                        ).push(request_of((u, gv))));
                    }
                },
            }
            proof {
                done = done.push(fm);
            }
            if last_one {
                proof {
                    assert(all =~= done);
                    assert(self.model() == apply_all(m0, c, vs));
                }
                return false;
            }
            pos = n - left;
            proof {
                assert(all == done + frames(data@.subrange(pos as int, n as int)));
            }
        }
    }
}

} // verus!
