//! Variable-length integers: little-endian groups of seven bits, each group
//! but the last carrying the continuation bit `0x80`.
use vstd::prelude::*;

use crate::error::PacketError;

verus! {

/// Most bytes one encoded 32-bit value may span.
pub const MAX_VARINT_BYTES: usize = 5;

/// The encoding of the 32-bit pattern `v`.
pub open spec fn varint_bytes(v: u32) -> Seq<u8>
    decreases v,
{
    if v < 128 {
        seq![v as u8]
    } else {
        seq![(v % 128 + 128) as u8] + varint_bytes(v / 128)
    }
}

/// Decodes the value at the front of `b`, `depth` groups having been read
/// already; gives the value of the remaining groups and how many bytes they
/// take.
pub open spec fn varint_decode_from(b: Seq<u8>, depth: nat) -> Result<(int, nat), PacketError>
    decreases b.len(),
{
    if b.len() == 0 {
        Err(PacketError::UnexpectedEof)
    } else if b[0] < 128 {
        Ok((b[0] as int, 1))
    } else if depth + 1 >= MAX_VARINT_BYTES {
        Err(PacketError::InvalidData)
    } else {
        match varint_decode_from(b.subrange(1, b.len() as int), depth + 1) {
            Ok((v, n)) => Ok((b[0] - 128 + 128 * v, n + 1)),
            Err(e) => Err(e),
        }
    }
}

/// The value encoded at the front of `b` (before truncation to 32 bits), and
/// its length in bytes.
pub open spec fn varint_decode(b: Seq<u8>) -> Result<(int, nat), PacketError> {
    varint_decode_from(b, 0)
}

/// What `read_varint` returns for the input `b`.
pub open spec fn varint_read_result(b: Seq<u8>) -> Result<(i32, usize), PacketError> {
    match varint_decode(b) {
        Ok((v, n)) => Ok(((v % 0x1_0000_0000) as u32 as i32, n as usize)),
        Err(e) => Err(e),
    }
}

/// Appends the encoding of `value` (as its 32-bit pattern) to `out`.
pub fn write_varint(value: i32, out: &mut Vec<u8>)
    ensures
        final(out)@ == old(out)@ + varint_bytes(value as u32),
{
    let mut v: u32 = value as u32;
    while v >= 128
        invariant
            old(out)@ + varint_bytes(value as u32) == out@ + varint_bytes(v),
        decreases v,
    {
        let group: u8 = (v % 128 + 128) as u8;
        out.push(group);
        proof {
            assert(varint_bytes(v) == seq![group] + varint_bytes(v / 128));
            assert(out@ + varint_bytes(v / 128) =~= old(out)@ + varint_bytes(value as u32));
        }
        v = v / 128;
    }
    out.push(v as u8);
    assert(out@ =~= old(out)@ + varint_bytes(value as u32));
}

/// The encoding of the 64-bit pattern `v`.
pub open spec fn varlong_bytes(v: u64) -> Seq<u8>
    decreases v,
{
    if v < 128 {
        seq![v as u8]
    } else {
        seq![(v % 128 + 128) as u8] + varlong_bytes(v / 128)
    }
}

/// Appends the encoding of `value` (as its 64-bit pattern) to `out`.
pub fn write_varlong(value: i64, out: &mut Vec<u8>)
    ensures
        final(out)@ == old(out)@ + varlong_bytes(value as u64),
{
    let mut v: u64 = value as u64;
    while v >= 128
        invariant
            old(out)@ + varlong_bytes(value as u64) == out@ + varlong_bytes(v),
        decreases v,
    {
        let group: u8 = (v % 128 + 128) as u8;
        out.push(group);
        proof {
            assert(varlong_bytes(v) == seq![group] + varlong_bytes(v / 128));
            assert(out@ + varlong_bytes(v / 128) =~= old(out)@ + varlong_bytes(value as u64));
        }
        v = v / 128;
    }
    out.push(v as u8);
    assert(out@ =~= old(out)@ + varlong_bytes(value as u64));
}

/// The number of bytes that `write_varint` appends for `value`.
pub fn varint_length(value: i32) -> (r: usize)
    ensures
        r == varint_bytes(value as u32).len(),
        1 <= r <= MAX_VARINT_BYTES,
{
    let mut v: u32 = value as u32;
    let mut length: usize = 1;
    proof {
        reveal_with_fuel(pow128, 6);
        lemma_varint_len_bound(v, 5);
    }
    while v >= 128
        invariant
            1 <= length <= 5,
            length + varint_bytes(v).len() == varint_bytes(value as u32).len() + 1,
            varint_bytes(value as u32).len() <= 5,
        decreases v,
    {
        proof {
            assert(varint_bytes(v).len() == 1 + varint_bytes(v / 128).len());
            assert(varint_bytes(v / 128).len() >= 1);
        }
        v = v / 128;
        length = length + 1;
    }
    length
}

/// Reads one value from the front of `b`; gives it with the number of bytes
/// it took. Fails with `UnexpectedEof` when `b` ends inside the value and with
/// `InvalidData` when a fifth byte still carries the continuation bit.
pub fn read_varint(b: &[u8]) -> (r: Result<(i32, usize), PacketError>)
    ensures
        r == varint_read_result(b@),
{
    let mut i: usize = 0;
    let mut acc: u64 = 0;
    let mut mult: u64 = 1;
    assert(b@.subrange(0, b@.len() as int) =~= b@);
    loop
        invariant
            i < MAX_VARINT_BYTES,
            i <= b@.len(),
            mult == pow128(i as nat),
            mult <= 0x1000_0000,
            acc < mult,
            varint_decode(b@) == shift_result(
                varint_decode_from(b@.subrange(i as int, b@.len() as int), i as nat),
                acc as int,
                mult as int,
                i as nat,
            ),
        decreases MAX_VARINT_BYTES - i,
    {
        let rest = Ghost(b@.subrange(i as int, b@.len() as int));
        if i >= b.len() {
            assert(rest@.len() == 0);
            return Err(PacketError::UnexpectedEof);
        }
        let byte = b[i];
        assert(rest@[0] == byte);
        if byte < 128 {
            proof {
                assert((byte as u64) * mult <= 127 * mult) by (nonlinear_arith)
                    requires byte < 128;
            }
            let value: u64 = acc + byte as u64 * mult;
            let low: u32 = (value % 0x1_0000_0000) as u32;
            let out: i32 = #[verifier::truncate] (low as i32);
            assert(value as int == acc as int + (mult as int) * (byte as int)) by (nonlinear_arith)
                requires value == acc + byte as u64 * mult;
            return Ok((out, i + 1));
        }
        if i + 1 >= MAX_VARINT_BYTES {
            return Err(PacketError::InvalidData);
        }
        let d: u64 = (byte - 128) as u64;
        proof {
            let next = b@.subrange(i + 1, b@.len() as int);
            assert(rest@.subrange(1, rest@.len() as int) =~= next);
            assert(d * mult <= 127 * mult) by (nonlinear_arith)
                requires d <= 127;
            match varint_decode_from(next, (i + 1) as nat) {
                Ok((v, n)) => {
                    assert((mult as int) * ((d as int) + 128 * v) == d * mult + (mult * 128) as int
                        * v) by (nonlinear_arith);
                },
                Err(_) => {},
            }
            lemma_pow128_bound((i + 1) as nat);
        }
        acc = acc + d * mult;
        mult = mult * 128;
        i = i + 1;
    }
}

/// `128` to the power `i`.
pub open spec fn pow128(i: nat) -> int
    decreases i,
{
    if i == 0 {
        1
    } else {
        128 * pow128((i - 1) as nat)
    }
}

/// Places a decoding of the groups from position `i` on behalf of the whole:
/// the value is scaled by `mult` and added to `acc`, and `i` bytes are counted.
pub open spec fn shift_result(
    r: Result<(int, nat), PacketError>,
    acc: int,
    mult: int,
    i: nat,
) -> Result<(int, nat), PacketError> {
    match r {
        Ok((v, n)) => Ok((acc + mult * v, n + i)),
        Err(e) => Err(e),
    }
}

proof fn lemma_pow128_bound(i: nat)
    requires
        i < MAX_VARINT_BYTES,
    ensures
        1 <= pow128(i) <= 0x1000_0000,
{
    reveal_with_fuel(pow128, 5);
}

proof fn lemma_varint_len_bound(v: u32, k: nat)
    requires
        (v as int) < pow128(k),
        k >= 1,
    ensures
        varint_bytes(v).len() <= k,
    decreases k,
{
    if v >= 128 {
        assert(k >= 2) by {
            if k == 1 {
                reveal_with_fuel(pow128, 2);
            }
        }
        assert(((v / 128) as int) < pow128((k - 1) as nat)) by (nonlinear_arith)
            requires
                v as int >= 128,
                (v as int) < pow128(k),
                pow128(k) == 128 * pow128((k - 1) as nat),
        ;
        lemma_varint_len_bound(v / 128, (k - 1) as nat);
    }
}

/// Round trip: reading back what `write_varint` wrote for any 32-bit value
/// gives that value and consumes exactly its encoding, whatever bytes follow.
pub proof fn lemma_varint_round_trip(value: i32, rest: Seq<u8>)
    ensures
        varint_read_result(varint_bytes(value as u32) + rest) == Ok::<(i32, usize), PacketError>(
            (value, varint_bytes(value as u32).len() as usize),
        ),
{
    let v = value as u32;
    reveal_with_fuel(pow128, 6);
    lemma_varint_len_bound(v, 5);
    lemma_decode_encoded(v, 0, rest);
    assert(v as int % 0x1_0000_0000 == v as int);
    assert((value as u32) as i32 == value) by (bit_vector);
}

proof fn lemma_decode_encoded(v: u32, depth: nat, rest: Seq<u8>)
    requires
        varint_bytes(v).len() + depth <= MAX_VARINT_BYTES,
    ensures
        varint_decode_from(varint_bytes(v) + rest, depth) == Ok::<(int, nat), PacketError>(
            (v as int, varint_bytes(v).len()),
        ),
    decreases v,
{
    let b = varint_bytes(v) + rest;
    if v < 128 {
        assert(b[0] == v as u8);
    } else {
        let tail = varint_bytes(v / 128);
        assert(tail.len() >= 1);
        assert(b.subrange(1, b.len() as int) =~= tail + rest);
        lemma_decode_encoded(v / 128, depth + 1, rest);
        assert(b[0] == (v % 128 + 128) as u8);
    }
}

/// No 32-bit value takes more than five bytes.
pub proof fn lemma_varint_bytes_len(v: u32)
    ensures
        1 <= varint_bytes(v).len() <= MAX_VARINT_BYTES,
{
    reveal_with_fuel(pow128, 6);
    lemma_varint_len_bound(v, 5);
}

/// The encoding of any 32-bit value decodes to that value, whatever bytes
/// follow it.
pub proof fn lemma_varint_decode_prefix(v: u32, rest: Seq<u8>)
    ensures
        varint_decode(varint_bytes(v) + rest) == Ok::<(int, nat), PacketError>(
            (v as int, varint_bytes(v).len()),
        ),
{
    lemma_varint_bytes_len(v);
    lemma_decode_encoded(v, 0, rest);
}

/// A successful read takes at least one byte and no more than the input.
pub proof fn lemma_read_len_bound(b: Seq<u8>)
    ensures
        varint_read_result(b) matches Ok((v, n)) ==> 1 <= n <= b.len(),
{
    lemma_decode_len_bound(b, 0);
}

proof fn lemma_decode_len_bound(b: Seq<u8>, depth: nat)
    requires
        depth < MAX_VARINT_BYTES,
    ensures
        varint_decode_from(b, depth) matches Ok((v, n)) ==> 1 <= n <= b.len() && n + depth
            <= MAX_VARINT_BYTES,
    decreases b.len(),
{
    if b.len() > 0 && b[0] >= 128 && depth + 1 < MAX_VARINT_BYTES {
        lemma_decode_len_bound(b.subrange(1, b.len() as int), depth + 1);
    }
}

} // verus!
