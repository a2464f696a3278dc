//! MessagePack framing of value messages.
//!
//! A value message is a MessagePack array of four items: a topic id, a
//! timestamp in microseconds, a type code and the value. The primitive writes
//! go through `rmp`; the specifications below state the bytes that the
//! MessagePack format prescribes for each of them.

use vstd::prelude::*;

verus! {

/// The two big-endian bytes of a value below 2^16.
pub open spec fn be16(v: int) -> Seq<u8> {
    seq![((v / 0x100) % 0x100) as u8, (v % 0x100) as u8]
}

/// The four big-endian bytes of a value below 2^32.
pub open spec fn be32(v: int) -> Seq<u8> {
    be16((v / 0x1_0000) % 0x1_0000) + be16(v % 0x1_0000)
}

/// The eight big-endian bytes of a value below 2^64.
pub open spec fn be64(v: int) -> Seq<u8> {
    be32((v / 0x1_0000_0000) % 0x1_0000_0000) + be32(v % 0x1_0000_0000)
}

/// The header of an array of `len` items: a fixarray marker below 16, else
/// the array16 or array32 marker and the length.
pub open spec fn array_len_bytes(len: u32) -> Seq<u8> {
    if len < 16 {
        seq![(0x90 + len) as u8]
    } else if len < 0x1_0000 {
        seq![0xdcu8] + be16(len as int)
    } else {
        seq![0xddu8] + be32(len as int)
    }
}

/// An unsigned integer in its shortest form.
pub open spec fn uint_bytes(v: u64) -> Seq<u8> {
    if v < 128 {
        seq![v as u8]
    } else if v < 0x100 {
        seq![0xccu8, v as u8]
    } else if v < 0x1_0000 {
        seq![0xcdu8] + be16(v as int)
    } else if v < 0x1_0000_0000 {
        seq![0xceu8] + be32(v as int)
    } else {
        seq![0xcfu8] + be64(v as int)
    }
}

/// An `i32` always in its five-byte form (marker `0xd2`, two's complement).
pub open spec fn i32_bytes(v: i32) -> Seq<u8> {
    seq![0xd2u8] + be32(if v < 0 { v + 0x1_0000_0000 } else { v as int })
}

/// A `u32` always in its five-byte form (marker `0xce`).
pub open spec fn u32_bytes(v: u32) -> Seq<u8> {
    seq![0xceu8] + be32(v as int)
}

/// A `u8` always in its two-byte form (marker `0xcc`).
pub open spec fn u8_bytes(v: u8) -> Seq<u8> {
    seq![0xccu8, v]
}

/// Appends the header of an array of `len` items.
/// Calls `rmp::encode::write_array_len`, which writes into a `Vec` without fail.
#[verifier::external_body]
pub(crate) fn write_array_len(buf: &mut Vec<u8>, len: u32)
    ensures
        final(buf)@ == old(buf)@ + array_len_bytes(len),
{
    let _ = rmp::encode::write_array_len(buf, len);
}

/// Appends an unsigned integer in its shortest form.
/// Calls `rmp::encode::write_uint`, which writes into a `Vec` without fail.
#[verifier::external_body]
pub(crate) fn write_uint(buf: &mut Vec<u8>, v: u64)
    ensures
        final(buf)@ == old(buf)@ + uint_bytes(v),
{
    let _ = rmp::encode::write_uint(buf, v);
}

/// Appends an `i32` in its five-byte form.
/// Calls `rmp::encode::write_i32`, which writes into a `Vec` without fail.
#[verifier::external_body]
pub(crate) fn write_i32(buf: &mut Vec<u8>, v: i32)
    ensures
        final(buf)@ == old(buf)@ + i32_bytes(v),
{
    let _ = rmp::encode::write_i32(buf, v);
}

/// Appends a `u32` in its five-byte form.
/// Calls `rmp::encode::write_u32`, which writes into a `Vec` without fail.
#[verifier::external_body]
pub(crate) fn write_u32(buf: &mut Vec<u8>, v: u32)
    ensures
        final(buf)@ == old(buf)@ + u32_bytes(v),
{
    let _ = rmp::encode::write_u32(buf, v);
}

/// Appends a `u8` in its two-byte form.
/// Calls `rmp::encode::write_u8`, which writes into a `Vec` without fail.
#[verifier::external_body]
pub(crate) fn write_u8(buf: &mut Vec<u8>, v: u8)
    ensures
        final(buf)@ == old(buf)@ + u8_bytes(v),
{
    let _ = rmp::encode::write_u8(buf, v);
}

/// The header of a map of `len` entries: a fixmap marker below 16, else the
/// map16 or map32 marker and the length.
pub open spec fn map_len_bytes(len: u32) -> Seq<u8> {
    if len < 16 {
        seq![(0x80 + len) as u8]
    } else if len < 0x1_0000 {
        seq![0xdeu8] + be16(len as int)
    } else {
        seq![0xdfu8] + be32(len as int)
    }
}

/// Appends the header of a map of `len` entries.
/// Calls `rmp::encode::write_map_len`, which writes into a `Vec` without fail.
#[verifier::external_body]
pub(crate) fn write_map_len(buf: &mut Vec<u8>, len: u32)
    ensures
        final(buf)@ == old(buf)@ + map_len_bytes(len),
{
    let _ = rmp::encode::write_map_len(buf, len);
}

/// What `rmp::encode::write_str` writes for the text `s`: its length header
/// and its UTF-8 bytes.
pub uninterp spec fn str_bytes(s: Seq<char>) -> Seq<u8>;

/// Appends a string.
/// Calls `rmp::encode::write_str`, which writes into a `Vec` without fail;
/// the contract names what it writes.
#[verifier::external_body]
pub(crate) fn write_str(buf: &mut Vec<u8>, s: &str)
    ensures
        final(buf)@ == old(buf)@ + str_bytes(s@),
{
    let _ = rmp::encode::write_str(buf, s);
}

/// A boolean: the `true` or `false` marker.
pub open spec fn bool_bytes(b: bool) -> Seq<u8> {
    if b { seq![0xc3u8] } else { seq![0xc2u8] }
}

/// Appends a boolean.
/// Calls `rmp::encode::write_bool`, which writes into a `Vec` without fail.
#[verifier::external_body]
pub(crate) fn write_bool(buf: &mut Vec<u8>, b: bool)
    ensures
        final(buf)@ == old(buf)@ + bool_bytes(b),
{
    let _ = rmp::encode::write_bool(buf, b);
}

/// A double, given by its IEEE 754 bit pattern: the float64 marker and the
/// eight big-endian bytes.
pub open spec fn f64_bits_bytes(bits: u64) -> Seq<u8> {
    seq![0xcbu8] + be64(bits as int)
}

/// Appends a double given by its bit pattern.
pub fn write_f64_bits(buf: &mut Vec<u8>, bits: u64)
    ensures
        final(buf)@ == old(buf)@ + f64_bits_bytes(bits),
{
    let ghost start = buf@;
    let hi: u64 = (bits / 0x1_0000_0000) % 0x1_0000_0000;
    let lo: u64 = bits % 0x1_0000_0000;
    let a: u64 = (hi / 0x1_0000) % 0x1_0000;
    let b: u64 = hi % 0x1_0000;
    let c: u64 = (lo / 0x1_0000) % 0x1_0000;
    let d: u64 = lo % 0x1_0000;
    buf.push(0xcbu8);
    buf.push(((a / 0x100) % 0x100) as u8);
    buf.push((a % 0x100) as u8);
    buf.push(((b / 0x100) % 0x100) as u8);
    buf.push((b % 0x100) as u8);
    buf.push(((c / 0x100) % 0x100) as u8);
    buf.push((c % 0x100) as u8);
    buf.push(((d / 0x100) % 0x100) as u8);
    buf.push((d % 0x100) as u8);
    assert(buf@ =~= start + f64_bits_bytes(bits));
}

/// Appends raw bytes.
pub fn append_bytes(buf: &mut Vec<u8>, bytes: &[u8])
    ensures
        final(buf)@ == old(buf)@ + bytes@,
{
    let ghost start = buf@;
    let mut i: usize = 0;
    while i < bytes.len()
        invariant
            i <= bytes@.len(),
            buf@ == start + bytes@.subrange(0, i as int),
        decreases bytes@.len() - i,
    {
        buf.push(bytes[i]);
        i = i + 1;
        assert(buf@ == start + bytes@.subrange(0, i as int));
    }
    assert(bytes@.subrange(0, bytes@.len() as int) == bytes@);
}

/// The header of a value message: a four-item array, the topic id, the
/// timestamp and the type code.
pub open spec fn value_header(topic_id: i32, timestamp: u64, type_code: u8) -> Seq<u8> {
    array_len_bytes(4) + i32_bytes(topic_id) + uint_bytes(timestamp) + u8_bytes(type_code)
}

/// Frames a value that is already MessagePack-encoded as a value message for
/// `topic_id`.
pub fn encode_value_message(topic_id: i32, timestamp: u64, type_code: u8, value: &[u8]) -> (buf:
    Vec<u8>)
    ensures
        buf@ == value_header(topic_id, timestamp, type_code) + value@,
{
    let mut buf: Vec<u8> = Vec::new();
    write_array_len(&mut buf, 4);
    write_i32(&mut buf, topic_id);
    write_uint(&mut buf, timestamp);
    write_u8(&mut buf, type_code);
    append_bytes(&mut buf, value);
    buf
}

/// The concatenation of a sequence of byte strings.
pub open spec fn flatten(parts: Seq<Seq<u8>>) -> Seq<u8>
    decreases parts.len(),
{
    if parts.len() == 0 {
        Seq::empty()
    } else {
        flatten(parts.drop_last()) + parts.last()
    }
}

/// The views of a list of byte vectors.
pub open spec fn views(parts: Seq<Vec<u8>>) -> Seq<Seq<u8>> {
    parts.map_values(|p: Vec<u8>| p@)
}

/// Frames the MessagePack-encoded entries of a meta-topic as a value message of
/// type raw: the entries form one array, which is the message's value.
pub fn encode_meta_message(topic_id: i32, timestamp: u64, entries: &Vec<Vec<u8>>) -> (buf: Vec<u8>)
    ensures
        buf@ == value_header(topic_id, timestamp, 5) + array_len_bytes(entries@.len() as u32)
            + flatten(views(entries@)),
{
    let mut value: Vec<u8> = Vec::new();
    #[verifier::truncate]
    let count: u32 = entries.len() as u32;
    write_array_len(&mut value, count);
    let ghost head = value@;
    let mut i: usize = 0;
    while i < entries.len()
        invariant
            i <= entries@.len(),
            value@ == head + flatten(views(entries@.subrange(0, i as int))),
        decreases entries@.len() - i,
    {
        append_bytes(&mut value, entries[i].as_slice());
        proof {
            let s = entries@.subrange(0, i + 1);
            assert(views(s).drop_last() == views(entries@.subrange(0, i as int)));
            assert(views(s).last() == entries@[i as int]@);
        }
        i = i + 1;
    }
    assert(entries@.subrange(0, entries@.len() as int) == entries@);
    encode_value_message(topic_id, timestamp, 5, value.as_slice())
}

/// The reply to a client's time-sync message: a value message for topic id -1,
/// stamped with the server time, of type int, whose value is the client's time.
pub fn encode_time_sync_reply(server_time: u64, client_time: u64) -> (buf: Vec<u8>)
    ensures
        buf@ == value_header(-1i32, server_time, 2) + uint_bytes(client_time),
{
    let mut buf: Vec<u8> = Vec::new();
    write_array_len(&mut buf, 4);
    write_i32(&mut buf, -1);
    write_uint(&mut buf, server_time);
    write_u8(&mut buf, 2);
    write_uint(&mut buf, client_time);
    buf
}

} // verus!
