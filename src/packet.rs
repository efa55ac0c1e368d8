//! A general packet codec: a builder that appends typed fields to a buffer,
//! and a reader that takes them back in order. Numbers are big-endian,
//! variable-length integers and strings as in `varint` and `frame`.
use bytes::{Bytes, BytesMut};
use uuid::Uuid;
use vstd::prelude::*;
use vstd::string::StringExecFns;

use crate::error::PacketError;
use crate::frame::{json_string_literal, string_bytes, utf8};
use crate::text::utf8_string;
use crate::varint::{
    lemma_varint_bytes_len,
    read_varint,
    varint_bytes,
    varint_read_result,
    varlong_bytes,
    write_varint,
    write_varlong,
};

verus! {

#[verifier::external_type_specification]
#[verifier::external_body]
pub struct ExBytesMut(BytesMut);

#[verifier::external_type_specification]
#[verifier::external_body]
pub struct ExBytes(Bytes);

#[verifier::external_type_specification]
#[verifier::external_body]
pub struct ExUuid(Uuid);

/// The sixteen bytes of a UUID.
pub uninterp spec fn uuid_bytes(u: Uuid) -> Seq<u8>;

/// Relies on `Uuid::as_bytes`: the UUID's sixteen bytes.
#[verifier::external_body]
fn uuid_as_bytes(u: &Uuid) -> (r: &[u8])
    ensures
        r@ == uuid_bytes(*u),
        r@.len() == 16,
{
    u.as_bytes().as_slice()
}

/// Relies on `Uuid::from_slice`: exactly sixteen bytes make a UUID, which
/// holds them.
#[verifier::external_body]
fn uuid_from_slice(b: &[u8]) -> (r: Option<Uuid>)
    ensures
        r is Some <==> b@.len() == 16,
        r matches Some(u) ==> uuid_bytes(u) == b@,
{
    Uuid::from_slice(b).ok()
}

/// The bytes a growable buffer holds.
pub uninterp spec fn buf_contents(b: BytesMut) -> Seq<u8>;

/// The bytes an immutable buffer holds.
pub uninterp spec fn bytes_contents(b: Bytes) -> Seq<u8>;

/// Relies on `BytesMut::new`: a new buffer is empty.
#[verifier::external_body]
fn new_buf() -> (r: BytesMut)
    ensures
        buf_contents(r) == Seq::<u8>::empty(),
{
    BytesMut::new()
}

/// Relies on `BufMut::put_slice` for `BytesMut` (`extend_from_slice`): the
/// bytes are appended.
#[verifier::external_body]
fn buf_put_slice(b: &mut BytesMut, s: &[u8])
    ensures
        buf_contents(*final(b)) == buf_contents(*old(b)) + s@,
{
    bytes::BufMut::put_slice(b, s)
}

/// Relies on `BytesMut::freeze`: the immutable buffer holds the same bytes.
#[verifier::external_body]
fn freeze(b: BytesMut) -> (r: Bytes)
    ensures
        bytes_contents(r) == buf_contents(b),
{
    b.freeze()
}

/// Relies on `Deref<Target = [u8]>` for `Bytes`: the slice is the bytes held.
#[verifier::external_body]
fn bytes_slice(b: &Bytes) -> (r: &[u8])
    ensures
        r@ == bytes_contents(*b),
{
    b.as_ref()
}

/// Relies on `Bytes::slice`: a buffer of the bytes at `from..to`; it panics
/// only outside the bounds, which `requires` excludes.
#[verifier::external_body]
fn bytes_sub(b: &Bytes, from: usize, to: usize) -> (r: Bytes)
    requires
        from <= to <= bytes_contents(*b).len(),
    ensures
        bytes_contents(r) == bytes_contents(*b).subrange(from as int, to as int),
{
    b.slice(from..to)
}

/// Relies on `Clone` for `Bytes`: the copy holds the same bytes.
#[verifier::external_body]
fn bytes_clone(b: &Bytes) -> (r: Bytes)
    ensures
        bytes_contents(r) == bytes_contents(*b),
{
    b.clone()
}

/// The connection phase a packet belongs to.
#[derive(Debug, Clone, Copy, PartialEq, Eq, Structural)]
pub enum ProtocolState {
    Handshake,
    Status,
    Login,
    Play,
}

/// Which way a packet travels.
#[derive(Debug, Clone, Copy, PartialEq, Eq, Structural)]
pub enum PacketDirection {
    Clientbound,
    Serverbound,
}

/// The `k` low bytes of `n`, most significant first.
pub open spec fn be_bytes(n: nat, k: nat) -> Seq<u8>
    decreases k,
{
    if k == 0 {
        Seq::empty()
    } else {
        be_bytes(n / 256, (k - 1) as nat) + seq![(n % 256) as u8]
    }
}

/// The number that big-endian bytes `s` stand for.
pub open spec fn be_value(s: Seq<u8>) -> nat
    decreases s.len(),
{
    if s.len() == 0 {
        0
    } else {
        (be_value(s.drop_last()) * 256 + s.last()) as nat
    }
}

pub open spec fn pow256(k: nat) -> nat
    decreases k,
{
    if k == 0 {
        1
    } else {
        256 * pow256((k - 1) as nat)
    }
}

/// Appends the `k` low bytes of `n`, most significant first.
fn push_be(out: &mut Vec<u8>, n: u64, k: usize)
    ensures
        final(out)@ == old(out)@ + be_bytes(n as nat, k as nat),
    decreases k,
{
    if k > 0 {
        push_be(out, n / 256, k - 1);
        out.push((n % 256) as u8);
        assert(out@ =~= old(out)@ + be_bytes(n as nat, k as nat));
    } else {
        assert(out@ =~= old(out)@ + be_bytes(n as nat, k as nat));
    }
}

proof fn lemma_be_value_bound(s: Seq<u8>)
    ensures
        be_value(s) < pow256(s.len()),
    decreases s.len(),
{
    if s.len() > 0 {
        let t = s.drop_last();
        lemma_be_value_bound(t);
        let a = be_value(t);
        let p = pow256(t.len());
        let b = s.last();
        assert(a * 256 + b < 256 * p) by (nonlinear_arith)
            requires
                a < p,
                b < 256,
        ;
    }
}

proof fn lemma_pow256_8()
    ensures
        pow256(8) == 0x1_0000_0000_0000_0000,
        pow256(4) == 0x1_0000_0000,
        pow256(2) == 0x1_0000,
        pow256(1) == 0x100,
{
    reveal_with_fuel(pow256, 9);
}

/// The number that `s[from..from + k]` stands for, big-endian.
fn be_read(s: &[u8], from: usize, k: usize) -> (r: u64)
    requires
        k <= 8,
        from + k <= s@.len(),
    ensures
        r == be_value(s@.subrange(from as int, from + k)),
{
    let n: usize = s.len();
    let mut acc: u64 = 0;
    let mut i: usize = 0;
    while i < k
        invariant
            k <= 8,
            i <= k,
            from + k <= s@.len(),
            n == s@.len(),
            acc == be_value(s@.subrange(from as int, from + i)),
        decreases k - i,
    {
        let part = Ghost(s@.subrange(from as int, from + i + 1));
        proof {
            assert(part@.drop_last() =~= s@.subrange(from as int, from + i));
            lemma_be_value_bound(part@);
            lemma_pow256_mono(part@.len(), 8);
            lemma_pow256_8();
        }
        acc = acc * 256 + s[from + i] as u64;
        i = i + 1;
    }
    acc
}

proof fn lemma_pow256_mono(a: nat, b: nat)
    requires
        a <= b,
    ensures
        pow256(a) <= pow256(b),
    decreases b,
{
    if a < b {
        lemma_pow256_mono(a, (b - 1) as nat);
        assert(pow256((b - 1) as nat) >= 1) by {
            lemma_pow256_pos((b - 1) as nat);
        }
    }
}

proof fn lemma_pow256_pos(a: nat)
    ensures
        pow256(a) >= 1,
    decreases a,
{
    if a > 0 {
        lemma_pow256_pos((a - 1) as nat);
    }
}

/// Most bytes of data one packet may carry, so that its length prefix fits
/// a 32-bit variable-length integer.
pub const MAX_PACKET_DATA: usize = 0x7fff_fff0;

/// A packet on the wire: the byte count of what follows, the packet id, the
/// data.
pub open spec fn packet_frame(packet_id: i32, data: Seq<u8>) -> Seq<u8> {
    let body = varint_bytes(packet_id as u32) + data;
    varint_bytes(body.len() as u32) + body
}

/// The chat object of a packet: `{"text": ...}` with `text` as a JSON
/// string.
pub open spec fn plain_chat(text: Seq<char>) -> Seq<char> {
    "{\"text\":"@ + json_string_literal(text) + "}"@
}

/// A finished packet.
pub struct Packet {
    pub packet_id: i32,
    pub state: ProtocolState,
    pub bound_to: PacketDirection,
    pub data: Bytes,
}

impl Packet {
    /// The data bytes.
    pub open spec fn body(&self) -> Seq<u8> {
        bytes_contents(self.data)
    }

    /// The packet as sent: byte count, id, data.
    pub fn serialize(&self) -> (r: Bytes)
        requires
            self.body().len() <= MAX_PACKET_DATA,
        ensures
            bytes_contents(r) == packet_frame(self.packet_id, self.body()),
    {
        let data = bytes_slice(&self.data);
        let mut id: Vec<u8> = Vec::new();
        write_varint(self.packet_id, &mut id);
        proof {
            lemma_varint_bytes_len(self.packet_id as u32);
        }
        let mut head: Vec<u8> = Vec::new();
        write_varint((id.len() + data.len()) as i32, &mut head);
        let mut buf = new_buf();
        buf_put_slice(&mut buf, head.as_slice());
        buf_put_slice(&mut buf, id.as_slice());
        buf_put_slice(&mut buf, data);
        proof {
            let body = varint_bytes(self.packet_id as u32) + self.body();
            assert(body.len() == id@.len() + data@.len());
        }
        let r = freeze(buf);
        assert(bytes_contents(r) =~= packet_frame(self.packet_id, self.body()));
        r
    }

    /// A reader positioned at the start of the data.
    pub fn reader(&self) -> (r: PacketReader)
        ensures
            r.contents() == self.body(),
            r.position() == 0,
    {
        PacketReader { data: bytes_clone(&self.data), position: 0 }
    }
}

/// Appends typed fields to a packet under construction.
pub struct PacketBuilder {
    packet_id: i32,
    state: ProtocolState,
    bound_to: PacketDirection,
    data: BytesMut,
}

impl PacketBuilder {
    /// The bytes written so far.
    pub closed spec fn contents(&self) -> Seq<u8> {
        buf_contents(self.data)
    }

    pub closed spec fn id(&self) -> i32 {
        self.packet_id
    }

    pub closed spec fn protocol_state(&self) -> ProtocolState {
        self.state
    }

    pub closed spec fn direction(&self) -> PacketDirection {
        self.bound_to
    }

    /// The builder keeps its header and gains `bytes`.
    pub open spec fn appended(&self, next: &Self, bytes: Seq<u8>) -> bool {
        &&& next.contents() == self.contents() + bytes
        &&& next.id() == self.id()
        &&& next.protocol_state() == self.protocol_state()
        &&& next.direction() == self.direction()
    }

    pub fn new(packet_id: i32, state: ProtocolState, bound_to: PacketDirection) -> (r: Self)
        ensures
            r.contents() == Seq::<u8>::empty(),
            r.id() == packet_id,
            r.protocol_state() == state,
            r.direction() == bound_to,
    {
        Self { packet_id, state, bound_to, data: new_buf() }
    }

    /// The finished packet.
    pub fn build(self) -> (r: Packet)
        ensures
            r.packet_id == self.id(),
            r.state == self.protocol_state(),
            r.bound_to == self.direction(),
            r.body() == self.contents(),
    {
        Packet {
            packet_id: self.packet_id,
            state: self.state,
            bound_to: self.bound_to,
            data: freeze(self.data),
        }
    }

    fn append(&mut self, bytes: &[u8])
        ensures
            old(self).appended(&*final(self), bytes@),
    {
        buf_put_slice(&mut self.data, bytes);
    }

    pub fn write_bool(&mut self, value: bool)
        ensures
            old(self).appended(
                &*final(self),
                seq![
                    if value {
                        1u8
                    } else {
                        0u8
                    },
                ],
            ),
    {
        let mut b: Vec<u8> = Vec::new();
        b.push(if value {
            1u8
        } else {
            0u8
        });
        self.append(b.as_slice());
    }

    pub fn write_byte(&mut self, value: i8)
        ensures
            old(self).appended(&*final(self), seq![value as u8]),
    {
        let mut b: Vec<u8> = Vec::new();
        b.push(value as u8);
        self.append(b.as_slice());
    }

    pub fn write_ubyte(&mut self, value: u8)
        ensures
            old(self).appended(&*final(self), seq![value]),
    {
        let mut b: Vec<u8> = Vec::new();
        b.push(value);
        self.append(b.as_slice());
    }

    pub fn write_short(&mut self, value: i16)
        ensures
            old(self).appended(&*final(self), be_bytes(value as u16 as nat, 2)),
    {
        let mut b: Vec<u8> = Vec::new();
        push_be(&mut b, value as u16 as u64, 2);
        self.append(b.as_slice());
    }

    pub fn write_ushort(&mut self, value: u16)
        ensures
            old(self).appended(&*final(self), be_bytes(value as nat, 2)),
    {
        let mut b: Vec<u8> = Vec::new();
        push_be(&mut b, value as u64, 2);
        self.append(b.as_slice());
    }

    pub fn write_int(&mut self, value: i32)
        ensures
            old(self).appended(&*final(self), be_bytes(value as u32 as nat, 4)),
    {
        let mut b: Vec<u8> = Vec::new();
        push_be(&mut b, value as u32 as u64, 4);
        self.append(b.as_slice());
    }

    pub fn write_long(&mut self, value: i64)
        ensures
            old(self).appended(&*final(self), be_bytes(value as u64 as nat, 8)),
    {
        let mut b: Vec<u8> = Vec::new();
        push_be(&mut b, value as u64, 8);
        self.append(b.as_slice());
    }

    pub fn write_varint(&mut self, value: i32)
        ensures
            old(self).appended(&*final(self), varint_bytes(value as u32)),
    {
        let mut b: Vec<u8> = Vec::new();
        write_varint(value, &mut b);
        self.append(b.as_slice());
    }

    pub fn write_varlong(&mut self, value: i64)
        ensures
            old(self).appended(&*final(self), varlong_bytes(value as u64)),
    {
        let mut b: Vec<u8> = Vec::new();
        write_varlong(value, &mut b);
        self.append(b.as_slice());
    }

    /// Appends `value` as a string; fails with `InvalidData`, writing
    /// nothing, when its UTF-8 form is longer than a 32-bit count allows.
    pub fn write_string(&mut self, value: &str) -> (r: Result<(), PacketError>)
        ensures
            utf8(value@).len() <= i32::MAX ==> r is Ok && old(self).appended(
                &*final(self),
                string_bytes(value@),
            ),
            utf8(value@).len() > i32::MAX ==> r == Err::<(), PacketError>(PacketError::InvalidData)
                && *final(self) == *old(self),
    {
        if value.as_bytes().len() > i32::MAX as usize {
            return Err(PacketError::InvalidData);
        }
        let mut b: Vec<u8> = Vec::new();
        crate::frame::write_string(value, &mut b);
        self.append(b.as_slice());
        Ok(())
    }

    /// Appends the chat object `{"text": text}` as a string.
    pub fn write_chat(&mut self, text: &str) -> (r: Result<(), PacketError>)
        ensures
            utf8(plain_chat(text@)).len() <= i32::MAX ==> r is Ok && old(self).appended(
                &*final(self),
                string_bytes(plain_chat(text@)),
            ),
            utf8(plain_chat(text@)).len() > i32::MAX ==> r == Err::<(), PacketError>(
                PacketError::InvalidData,
            ) && *final(self) == *old(self),
    {
        let mut chat = String::from_str("{\"text\":");
        let quoted = crate::frame::json_quote(text);
        chat.append(quoted.as_str());
        chat.append("}");
        self.write_string(chat.as_str())
    }

    pub fn write_uuid(&mut self, uuid: Uuid)
        ensures
            old(self).appended(&*final(self), uuid_bytes(uuid)),
    {
        self.append(uuid_as_bytes(&uuid));
    }

    pub fn write_bytes(&mut self, bytes: &[u8])
        ensures
            old(self).appended(&*final(self), bytes@),
    {
        self.append(bytes);
    }
}

/// Takes typed fields back from a packet's data, in order.
pub struct PacketReader {
    data: Bytes,
    position: usize,
}

/// What `read_string` gives for `data` read from `pos`: the string and how
/// many bytes it took, or the error.
pub open spec fn string_read(data: Seq<u8>, pos: int) -> Result<(Seq<char>, int), PacketError> {
    match varint_read_result(data.subrange(pos, data.len() as int)) {
        Ok((len, n)) => if len < 0 || pos + n + len > data.len() {
            Err(PacketError::InvalidData)
        } else {
            let bytes = data.subrange(pos + n, pos + n + len);
            if vstd::utf8::valid_utf8(bytes) {
                Ok((vstd::utf8::decode_utf8(bytes), n + len))
            } else {
                Err(PacketError::Utf8)
            }
        },
        Err(_) => Err(PacketError::InvalidData),
    }
}

impl PacketReader {
    /// The bytes being read.
    pub closed spec fn contents(&self) -> Seq<u8> {
        bytes_contents(self.data)
    }

    /// How many bytes have been taken.
    pub closed spec fn position(&self) -> int {
        self.position as int
    }

    /// `next` reads the same bytes, `k` further on, and not past the end.
    pub open spec fn advanced(&self, next: &Self, k: int) -> bool {
        &&& next.contents() == self.contents()
        &&& next.position() == self.position() + k
        &&& next.position() <= next.contents().len()
    }

    /// Takes the next `k` bytes as a big-endian number; fails with
    /// `InvalidData`, taking nothing, when fewer remain.
    fn take(&mut self, k: usize) -> (r: Result<u64, PacketError>)
        requires
            1 <= k <= 8,
        ensures
            ({
                let pos = old(self).position();
                let data = old(self).contents();
                if pos + k <= data.len() {
                    r matches Ok(v) && v == be_value(data.subrange(pos, pos + k)) && v < pow256(
                        k as nat,
                    ) && old(self).advanced(&*final(self), k as int)
                } else {
                    r == Err::<u64, PacketError>(PacketError::InvalidData) && *final(self)
                        == *old(self)
                }
            }),
    {
        let data = bytes_slice(&self.data);
        let len = data.len();
        if self.position > len || k > len - self.position {
            return Err(PacketError::InvalidData);
        }
        let v = be_read(data, self.position, k);
        proof {
            lemma_be_value_bound(data@.subrange(self.position as int, self.position + k));
        }
        self.position = self.position + k;
        Ok(v)
    }

    pub fn read_bool(&mut self) -> (r: Result<bool, PacketError>)
        ensures
            ({
                let pos = old(self).position();
                let data = old(self).contents();
                if pos + 1 <= data.len() {
                    r == Ok::<bool, PacketError>(data[pos] != 0) && old(self).advanced(
                        &*final(self),
                        1,
                    )
                } else {
                    r == Err::<bool, PacketError>(PacketError::InvalidData) && *final(self)
                        == *old(self)
                }
            }),
    {
        let v = self.take(1)?;
        proof {
            reveal_with_fuel(be_value, 2);
        }
        Ok(v != 0)
    }

    pub fn read_byte(&mut self) -> (r: Result<i8, PacketError>)
        ensures
            ({
                let pos = old(self).position();
                let data = old(self).contents();
                if pos + 1 <= data.len() {
                    r == Ok::<i8, PacketError>(data[pos] as i8) && old(self).advanced(
                        &*final(self),
                        1,
                    )
                } else {
                    r == Err::<i8, PacketError>(PacketError::InvalidData) && *final(self)
                        == *old(self)
                }
            }),
    {
        let v = self.take(1)?;
        proof {
            reveal_with_fuel(be_value, 2);
        }
        Ok(v as u8 as i8)
    }

    pub fn read_ubyte(&mut self) -> (r: Result<u8, PacketError>)
        ensures
            ({
                let pos = old(self).position();
                let data = old(self).contents();
                if pos + 1 <= data.len() {
                    r == Ok::<u8, PacketError>(data[pos]) && old(self).advanced(&*final(self), 1)
                } else {
                    r == Err::<u8, PacketError>(PacketError::InvalidData) && *final(self)
                        == *old(self)
                }
            }),
    {
        let v = self.take(1)?;
        proof {
            reveal_with_fuel(be_value, 2);
        }
        Ok(v as u8)
    }

    pub fn read_short(&mut self) -> (r: Result<i16, PacketError>)
        ensures
            ({
                let pos = old(self).position();
                let data = old(self).contents();
                if pos + 2 <= data.len() {
                    r == Ok::<i16, PacketError>(be_value(data.subrange(pos, pos + 2)) as u16 as i16)
                        && old(self).advanced(&*final(self), 2)
                } else {
                    r == Err::<i16, PacketError>(PacketError::InvalidData) && *final(self)
                        == *old(self)
                }
            }),
    {
        let v = self.take(2)?;
        proof {
            lemma_pow256_8();
        }
        Ok(v as u16 as i16)
    }

    pub fn read_ushort(&mut self) -> (r: Result<u16, PacketError>)
        ensures
            ({
                let pos = old(self).position();
                let data = old(self).contents();
                if pos + 2 <= data.len() {
                    r == Ok::<u16, PacketError>(be_value(data.subrange(pos, pos + 2)) as u16)
                        && old(self).advanced(&*final(self), 2)
                } else {
                    r == Err::<u16, PacketError>(PacketError::InvalidData) && *final(self)
                        == *old(self)
                }
            }),
    {
        let v = self.take(2)?;
        proof {
            lemma_pow256_8();
        }
        Ok(v as u16)
    }

    pub fn read_int(&mut self) -> (r: Result<i32, PacketError>)
        ensures
            ({
                let pos = old(self).position();
                let data = old(self).contents();
                if pos + 4 <= data.len() {
                    r == Ok::<i32, PacketError>(be_value(data.subrange(pos, pos + 4)) as u32 as i32)
                        && old(self).advanced(&*final(self), 4)
                } else {
                    r == Err::<i32, PacketError>(PacketError::InvalidData) && *final(self)
                        == *old(self)
                }
            }),
    {
        let v = self.take(4)?;
        proof {
            lemma_pow256_8();
        }
        Ok(v as u32 as i32)
    }

    pub fn read_long(&mut self) -> (r: Result<i64, PacketError>)
        ensures
            ({
                let pos = old(self).position();
                let data = old(self).contents();
                if pos + 8 <= data.len() {
                    r == Ok::<i64, PacketError>(be_value(data.subrange(pos, pos + 8)) as u64 as i64)
                        && old(self).advanced(&*final(self), 8)
                } else {
                    r == Err::<i64, PacketError>(PacketError::InvalidData) && *final(self)
                        == *old(self)
                }
            }),
    {
        let v = self.take(8)?;
        proof {
            lemma_pow256_8();
        }
        Ok(v as i64)
    }

    /// Takes a variable-length integer; any failure is `InvalidData`, and
    /// then nothing is taken.
    pub fn read_varint(&mut self) -> (r: Result<i32, PacketError>)
        ensures
            ({
                let pos = old(self).position();
                let data = old(self).contents();
                pos <= data.len() ==> match varint_read_result(data.subrange(pos, data.len() as int)) {
                    Ok((v, n)) => r == Ok::<i32, PacketError>(v) && old(self).advanced(
                        &*final(self),
                        n as int,
                    ),
                    Err(_) => r == Err::<i32, PacketError>(PacketError::InvalidData) && *final(self)
                        == *old(self),
                }
            }),
            old(self).position() > old(self).contents().len() ==> r == Err::<i32, PacketError>(
                PacketError::InvalidData,
            ) && *final(self) == *old(self),
    {
        let data = bytes_slice(&self.data);
        if self.position > data.len() {
            return Err(PacketError::InvalidData);
        }
        let (_, rest) = data.split_at(self.position);
        assert(rest@ =~= data@.subrange(self.position as int, data@.len() as int));
        match read_varint(rest) {
            Ok((v, n)) => {
                proof {
                    crate::varint::lemma_read_len_bound(rest@);
                }
                self.position = self.position + n;
                Ok(v)
            },
            Err(_) => Err(PacketError::InvalidData),
        }
    }

    /// Takes a length-prefixed UTF-8 string; on any failure nothing is
    /// taken.
    pub fn read_string(&mut self) -> (r: Result<String, PacketError>)
        ensures
            old(self).position() <= old(self).contents().len() ==> match string_read(
                old(self).contents(),
                old(self).position(),
            ) {
                Ok((s, k)) => r matches Ok(t) && t@ == s && old(self).advanced(&*final(self), k),
                Err(e) => r == Err::<String, PacketError>(e) && *final(self) == *old(self),
            },
    {
        let data = bytes_slice(&self.data);
        if self.position > data.len() {
            return Err(PacketError::InvalidData);
        }
        let (_, rest) = data.split_at(self.position);
        assert(rest@ =~= data@.subrange(self.position as int, data@.len() as int));
        let (len, n) = match read_varint(rest) {
            Ok(x) => x,
            Err(_) => {
                return Err(PacketError::InvalidData);
            },
        };
        proof {
            crate::varint::lemma_read_len_bound(rest@);
        }
        let start = self.position + n;
        if len < 0 || len as usize > data.len() - start {
            return Err(PacketError::InvalidData);
        }
        let end = start + len as usize;
        let mut bytes: Vec<u8> = Vec::new();
        let mut i = start;
        while i < end
            invariant
                start <= i <= end <= data@.len(),
                bytes@ == data@.subrange(start as int, i as int),
            decreases end - i,
        {
            bytes.push(data[i]);
            i = i + 1;
            assert(bytes@ =~= data@.subrange(start as int, i as int));
        }
        match utf8_string(bytes) {
            Some(s) => {
                self.position = end;
                Ok(s)
            },
            None => Err(PacketError::Utf8),
        }
    }

    /// Takes the next sixteen bytes as a UUID; fails with `InvalidData`,
    /// taking nothing, when fewer remain.
    pub fn read_uuid(&mut self) -> (r: Result<Uuid, PacketError>)
        ensures
            ({
                let pos = old(self).position();
                let data = old(self).contents();
                if pos + 16 <= data.len() {
                    r matches Ok(u) && uuid_bytes(u) == data.subrange(pos, pos + 16)
                        && old(self).advanced(&*final(self), 16)
                } else {
                    r == Err::<Uuid, PacketError>(PacketError::InvalidData) && *final(self)
                        == *old(self)
                }
            }),
    {
        let data = bytes_slice(&self.data);
        if self.position > data.len() || 16 > data.len() - self.position {
            return Err(PacketError::InvalidData);
        }
        let (_, rest) = data.split_at(self.position);
        let (field, _) = rest.split_at(16);
        assert(field@ =~= data@.subrange(self.position as int, self.position + 16));
        match uuid_from_slice(field) {
            Some(u) => {
                self.position = self.position + 16;
                Ok(u)
            },
            None => Err(PacketError::InvalidData),
        }
    }

    /// Takes the next `length` bytes; fails with `InvalidData`, taking
    /// nothing, when fewer remain.
    pub fn read_bytes(&mut self, length: usize) -> (r: Result<Bytes, PacketError>)
        ensures
            ({
                let pos = old(self).position();
                let data = old(self).contents();
                if pos + length <= data.len() {
                    r matches Ok(b) && bytes_contents(b) == data.subrange(pos, pos + length)
                        && old(self).advanced(&*final(self), length as int)
                } else {
                    r == Err::<Bytes, PacketError>(PacketError::InvalidData) && *final(self)
                        == *old(self)
                }
            }),
    {
        let len = bytes_slice(&self.data).len();
        if self.position > len || length > len - self.position {
            return Err(PacketError::InvalidData);
        }
        let b = bytes_sub(&self.data, self.position, self.position + length);
        self.position = self.position + length;
        Ok(b)
    }

    /// How many bytes are left.
    pub fn remaining(&self) -> (r: usize)
        ensures
            self.position() <= self.contents().len() ==> r == self.contents().len()
                - self.position(),
    {
        let len = bytes_slice(&self.data).len();
        if self.position > len {
            0
        } else {
            len - self.position
        }
    }
}

/// Packet id of the in-game Disconnect packet.
pub const PLAY_DISCONNECT_PACKET_ID: i32 = 0x1A;

/// The in-game Disconnect packet carrying `reason` as a chat object; fails
/// with `InvalidData` when that object is too long for a string.
pub fn build_disconnect_packet(reason: &str) -> (r: Result<Packet, PacketError>)
    ensures
        utf8(plain_chat(reason@)).len() <= i32::MAX ==> (r matches Ok(p) && p.packet_id
            == PLAY_DISCONNECT_PACKET_ID && p.state == ProtocolState::Play && p.bound_to
            == PacketDirection::Clientbound && p.body() == string_bytes(plain_chat(reason@))),
        utf8(plain_chat(reason@)).len() > i32::MAX ==> r == Err::<Packet, PacketError>(
            PacketError::InvalidData,
        ),
{
    let mut builder = PacketBuilder::new(
        PLAY_DISCONNECT_PACKET_ID,
        ProtocolState::Play,
        PacketDirection::Clientbound,
    );
    builder.write_chat(reason)?;
    Ok(builder.build())
}

} // verus!
