//! LEB128 variable-length integers, as used by every length prefix of the
//! binary protocols.

use vstd::prelude::*;

verus! {

/// Why a variable-length integer could not be read.
#[derive(Debug, Clone, Copy, PartialEq, Eq, Structural)]
pub enum VarintError {
    /// The input ended while the continuation bit was still set.
    Incomplete,
    /// Ten bytes were read and the continuation bit was still set.
    TooLong,
}

/// The LEB128 bytes of `value`: seven bits per byte, least significant group
/// first, the high bit set on every byte but the last.
pub open spec fn varint_bytes(value: u64) -> Seq<u8>
    decreases value,
{
    if value < 128 {
        seq![value as u8]
    } else {
        seq![(value % 128 + 128) as u8] + varint_bytes(value / 128)
    }
}

/// Reading a varint from `s`, where `k` bytes were already consumed and
/// their seven-bit groups gathered in `acc`.
pub open spec fn varint_read_from(s: Seq<u8>, k: nat, acc: u64) -> Result<(u64, usize), VarintError>
    decreases s.len(),
{
    if s.len() == 0 {
        Err(VarintError::Incomplete)
    } else {
        let b = s[0];
        let acc2 = acc | (((b & 0x7f) as u64) << ((7 * k) as u64));
        if b & 0x80 == 0 {
            Ok((acc2, (k + 1) as usize))
        } else if k + 1 >= 10 {
            Err(VarintError::TooLong)
        } else {
            varint_read_from(s.drop_first(), k + 1, acc2)
        }
    }
}

/// The value and the number of bytes that reading a varint at the start of
/// `s` gives.
pub open spec fn varint_read(s: Seq<u8>) -> Result<(u64, usize), VarintError> {
    varint_read_from(s, 0, 0)
}

/// Number of bytes of the LEB128 encoding of `value` (zero takes one byte).
pub open spec fn spec_varint_size(value: u64) -> nat {
    varint_bytes(value).len()
}

proof fn lemma_varint_step(v: u64)
    requires
        v >= 128,
    ensures
        v & 0x7f == v % 128,
        v >> 7 == v / 128,
        ((v % 128 + 128) as u8) & 0x7f == (v % 128) as u8,
        ((v % 128 + 128) as u8) & 0x80 != 0,
{
    assert(v & 0x7f == v % 128) by (bit_vector);
    assert(v >> 7 == v / 128) by (bit_vector);
    let b: u8 = (v % 128 + 128) as u8;
    let r: u8 = (v % 128) as u8;
    assert(b == r + 128);
    assert(r < 128);
    assert(b & 0x7f == r && b & 0x80 != 0) by (bit_vector)
        requires
            b == r + 128,
            r < 128,
    ;
}

/// Each encoded byte but the last has its high bit set; the encoding takes
/// between one and ten bytes.
pub proof fn lemma_varint_bytes_len(v: u64)
    ensures
        1 <= varint_bytes(v).len() <= 10,
        v < 128 <==> varint_bytes(v).len() == 1,
        varint_bytes(v).len() <= 1 + (if v >= 128 { varint_bytes(v / 128).len() } else { 0 }),
    decreases v,
{
    if v >= 128 {
        lemma_varint_bytes_len(v / 128);
        lemma_varint_len_bound(v);
    }
}

proof fn lemma_varint_len_bound(v: u64)
    ensures
        varint_bytes(v).len() <= 10,
        varint_bytes(v).len() >= 1,
    decreases v,
{
    assert(pow128(10) == 0x40_0000_0000_0000_0000int) by { reveal_with_fuel(pow128, 11); }
    lemma_varint_len_bits(v, 10);
}

/// Below `2^(7k)` the encoding takes at most `k` bytes.
proof fn lemma_varint_len_bits(v: u64, k: nat)
    requires
        k >= 1,
        v < pow128(k),
    ensures
        1 <= varint_bytes(v).len() <= k,
    decreases v,
{
    if v >= 128 {
        assert(k >= 2) by {
            if k == 1 {
                assert(pow128(1) == 128) by { reveal_with_fuel(pow128, 2); }
            }
        }
        assert(v / 128 < pow128((k - 1) as nat)) by {
            lemma_pow128_unfold((k - 1) as nat);
        }
        lemma_varint_len_bits(v / 128, (k - 1) as nat);
    }
}

/// `128^k`.
pub open spec fn pow128(k: nat) -> nat
    decreases k,
{
    if k == 0 { 1 } else { 128 * pow128((k - 1) as nat) }
}

proof fn lemma_pow128_unfold(k: nat)
    ensures
        pow128(k + 1) == 128 * pow128(k),
{
}


/// Reading back the encoding of `v`, placed after `k` bytes whose groups are
/// gathered in `acc`, adds the bits of `v` above those groups and stops at
/// the end of the encoding, whatever follows it.
proof fn lemma_varint_read_from_encoded(v: u64, rest: Seq<u8>, k: nat, acc: u64)
    requires
        k <= 9,
        acc >> ((7 * k) as u64) == 0,
        (v << ((7 * k) as u64)) >> ((7 * k) as u64) == v,
    ensures
        varint_read_from(varint_bytes(v) + rest, k, acc) == Ok::<(u64, usize), VarintError>(
            (acc | (v << ((7 * k) as u64)), (k + varint_bytes(v).len()) as usize),
        ),
    decreases v,
{
    let sh: u64 = (7 * k) as u64;
    let s = varint_bytes(v) + rest;
    if v < 128 {
        let b: u8 = v as u8;
        assert(s[0] == b);
        assert(b & 0x80 == 0 && ((b & 0x7f) as u64) == v) by (bit_vector)
            requires
                v < 128,
                b == v as u8,
        ;
    } else {
        lemma_varint_step(v);
        let b: u8 = (v % 128 + 128) as u8;
        assert(s[0] == b);
        let low: u64 = v & 0x7f;
        assert(((b & 0x7f) as u64) == low);
        assert(sh <= 63);
        assert(sh != 63) by {
            if sh == 63 {
                assert(false) by (bit_vector)
                    requires
                        v >= 128,
                        sh == 63,
                        (v << sh) >> sh == v,
                ;
            }
        }
        assert(k <= 8);
        let acc2: u64 = acc | (low << sh);
        let v2: u64 = v / 128;
        assert(v2 == v >> 7);
        let sh2: u64 = (7 * (k + 1)) as u64;
        assert(sh2 == sh + 7);
        assert(acc2 >> sh2 == 0) by (bit_vector)
            requires
                acc >> sh == 0,
                low == v & 0x7f,
                acc2 == acc | (low << sh),
                sh <= 56,
                sh2 == sh + 7,
        ;
        assert((v2 << sh2) >> sh2 == v2) by (bit_vector)
            requires
                (v << sh) >> sh == v,
                v2 == v >> 7,
                sh <= 56,
                sh2 == sh + 7,
        ;
        assert(acc2 | (v2 << sh2) == acc | (v << sh)) by (bit_vector)
            requires
                low == v & 0x7f,
                acc2 == acc | (low << sh),
                v2 == v >> 7,
                sh <= 56,
                sh2 == sh + 7,
        ;
        assert(s.drop_first() =~= varint_bytes(v2) + rest);
        lemma_varint_read_from_encoded(v2, rest, k + 1, acc2);
    }
}

/// Reading a varint back from its encoding, followed by anything, gives the
/// value and the length of the encoding.
pub proof fn lemma_varint_roundtrip(v: u64, rest: Seq<u8>)
    ensures
        varint_read(varint_bytes(v) + rest) == Ok::<(u64, usize), VarintError>(
            (v, varint_bytes(v).len() as usize),
        ),
{
    assert(((0u64) >> 0u64) == 0 && (v << 0u64) >> 0u64 == v && (0u64 | (v << 0u64)) == v)
        by (bit_vector);
    lemma_varint_read_from_encoded(v, rest, 0, 0);
}


/// Appends the LEB128 encoding of `value` to `buf`.
pub fn write_varint(buf: &mut Vec<u8>, value: u64)
    ensures
        final(buf)@ == old(buf)@ + varint_bytes(value),
{
    let mut v: u64 = value;
    let ghost start = buf@;
    while v >= 0x80
        invariant
            start + varint_bytes(value) == buf@ + varint_bytes(v),
        decreases v,
    {
        proof { lemma_varint_step(v); }
        let b: u8 = ((v & 0x7F) as u8) | 0x80;
        assert(b == (v % 128 + 128) as u8) by (bit_vector)
            requires
                v >= 128,
                b == ((v & 0x7F) as u8) | 0x80,
        ;
        let ghost before = buf@;
        buf.push(b);
        assert(before + varint_bytes(v) =~= buf@ + varint_bytes(v / 128));
        v = v >> 7;
    }
    buf.push(v as u8);
    assert(start + varint_bytes(value) =~= buf@);
}

/// The LEB128 encoding of `value` as a fresh vector.
pub fn encode_varint_bytes(value: u64) -> (bytes: Vec<u8>)
    ensures
        bytes@ == varint_bytes(value),
{
    let mut bytes: Vec<u8> = Vec::new();
    write_varint(&mut bytes, value);
    assert(bytes@ =~= varint_bytes(value));
    bytes
}

/// Reads a LEB128 varint at the start of `bytes`: its value and the number
/// of bytes it took, or why it could not be read.
pub fn read_varint(bytes: &[u8]) -> (res: Result<(u64, usize), VarintError>)
    ensures
        res == varint_read(bytes@),
{
    let mut result: u64 = 0;
    let mut shift: u64 = 0;
    let mut bytes_read: usize = 0;
    assert(bytes@.skip(0) =~= bytes@);
    while bytes_read < bytes.len()
        invariant
            bytes_read <= 9,
            bytes_read <= bytes.len(),
            shift == 7 * bytes_read,
            varint_read(bytes@) == varint_read_from(
                bytes@.skip(bytes_read as int),
                bytes_read as nat,
                result,
            ),
        decreases bytes.len() - bytes_read,
    {
        let byte = bytes[bytes_read];
        assert(bytes@.skip(bytes_read as int)[0] == byte);
        assert(bytes@.skip(bytes_read as int).drop_first() =~= bytes@.skip(bytes_read as int + 1));
        bytes_read += 1;
        if shift >= 64 {
            return Err(VarintError::TooLong);
        }
        result = result | (((byte & 0x7F) as u64) << shift);
        if (byte & 0x80) == 0 {
            return Ok((result, bytes_read));
        }
        shift += 7;
        if bytes_read >= 10 {
            return Err(VarintError::TooLong);
        }
    }
    assert(bytes@.skip(bytes_read as int).len() == 0);
    Err(VarintError::Incomplete)
}

/// Number of bytes of the LEB128 encoding of `value` (zero takes one byte).
pub fn varint_size(value: u64) -> (size: usize)
    ensures
        size == spec_varint_size(value),
        1 <= size <= 10,
{
    proof { lemma_varint_bytes_len(value); }
    if value == 0 {
        return 1;
    }
    let mut v: u64 = value;
    let mut size: usize = 0;
    while v > 0
        invariant
            v > 0 ==> size + varint_bytes(v).len() == varint_bytes(value).len(),
            v == 0 ==> size == varint_bytes(value).len(),
            varint_bytes(value).len() <= 10,
        decreases v,
    {
        proof {
            lemma_varint_bytes_len(v);
            if v >= 128 {
                lemma_varint_step(v);
            }
        }
        assert(v >> 7 == v / 128) by (bit_vector);
        size += 1;
        v = v >> 7;
    }
    size
}

/// A varint that was read took no more bytes than there were.
pub proof fn lemma_varint_read_len_le(s: Seq<u8>)
    ensures
        varint_read(s) matches Ok((v, n)) ==> 1 <= n <= s.len() && n <= 10,
{
    lemma_varint_read_from_len(s, 0, 0);
}

proof fn lemma_varint_read_from_len(s: Seq<u8>, k: nat, acc: u64)
    requires
        k <= 9,
    ensures
        varint_read_from(s, k, acc) matches Ok((v, n)) ==> k + 1 <= n
            <= k + s.len() && n <= 10,
    decreases s.len(),
{
    if s.len() > 0 {
        let b = s[0];
        let acc2 = acc | (((b & 0x7f) as u64) << ((7 * k) as u64));
        if b & 0x80 != 0 && k + 1 < 10 {
            lemma_varint_read_from_len(s.drop_first(), k + 1, acc2);
        }
    }
}


/// Reading a varint at position `c` of `b`: the value and the position
/// after it.
pub open spec fn varint_at(b: Seq<u8>, c: int) -> Result<(u64, int), VarintError> {
    match varint_read(b.skip(c)) {
        Ok((v, n)) => Ok((v, c + n)),
        Err(e) => Err(e),
    }
}

/// A varint read at `c` ends after `c` and no later than the end of `b`.
pub proof fn lemma_varint_at_bounds(b: Seq<u8>, c: int)
    requires
        0 <= c <= b.len(),
    ensures
        varint_at(b, c) matches Ok((v, c2)) ==> c < c2 <= b.len(),
{
    lemma_varint_read_len_le(b.skip(c));
}

/// Reads a varint at position `cursor` of `bytes`.
pub fn read_varint_at(bytes: &[u8], cursor: usize) -> (res: Result<(u64, usize), VarintError>)
    requires
        cursor <= bytes@.len(),
    ensures
        match (res, varint_at(bytes@, cursor as int)) {
            (Ok((v, c)), Ok((sv, sc))) => v == sv && c == sc && cursor < c <= bytes@.len(),
            (Err(e), Err(se)) => e == se,
            _ => false,
        },
{
    let rest = vstd::slice::slice_subrange(bytes, cursor, bytes.len());
    assert(rest@ =~= bytes@.skip(cursor as int));
    proof { lemma_varint_read_len_le(rest@); }
    match read_varint(rest) {
        Ok((v, n)) => Ok((v, cursor + n)),
        Err(e) => Err(e),
    }
}

} // verus!
