//! A cache entry and its binary layout: the key and the value, each after
//! its length as a varint, then the expiry time as eight little-endian
//! bytes (zero for none) and a flags byte.

use vstd::prelude::*;
use vstd::bytes::{spec_u64_from_le_bytes, spec_u64_to_le_bytes, u64_from_le_bytes, u64_to_le_bytes};
use crate::protocol::varint::{
    lemma_varint_at_bounds, lemma_varint_roundtrip, read_varint_at, spec_varint_size, varint_at, varint_bytes,
    varint_size, write_varint, VarintError,
};
use crate::clock::unix_now;
use crate::protocol::wire::append_bytes;

verus! {

/// The current time in whole seconds since 1970; a clock set before 1970
/// counts as 1970.
pub(crate) fn now_seconds() -> u64 {
    match unix_now() {
        Some(n) => n,
        None => 0,
    }
}

/// The time `ttl` seconds after `now`, or the largest time where that is
/// past it.
pub open spec fn expiry_time(now: u64, ttl: u64) -> u64 {
    if ttl > u64::MAX - now {
        u64::MAX
    } else {
        (now + ttl) as u64
    }
}

/// An entry as plain values.
pub struct ItemView {
    pub key: Seq<u8>,
    pub value: Seq<u8>,
    pub expires_at: Option<u64>,
    pub flags: u8,
}

/// A cache entry.
#[derive(Debug, Clone, PartialEq, Eq)]
pub struct Item {
    pub key: Vec<u8>,
    pub value: Vec<u8>,
    pub expires_at: Option<u64>,
    pub flags: u8,
}

impl View for Item {
    type V = ItemView;

    open spec fn view(&self) -> ItemView {
        ItemView { key: self.key@, value: self.value@, expires_at: self.expires_at, flags: self.flags }
    }
}

/// Whether an entry has expired at the time `now`: it has an expiry time
/// and `now` has reached it.
pub open spec fn expired_at(i: ItemView, now: u64) -> bool {
    i.expires_at matches Some(e) && now >= e
}

/// The size of an entry's layout.
pub open spec fn item_size(i: ItemView) -> nat {
    spec_varint_size(i.key.len() as u64) + i.key.len() + spec_varint_size(i.value.len() as u64) + i.value.len() + 8 + 1
}

/// The layout of an entry.
pub open spec fn item_bytes(i: ItemView) -> Seq<u8> {
    varint_bytes(i.key.len() as u64) + i.key + varint_bytes(i.value.len() as u64) + i.value
        + spec_u64_to_le_bytes(match i.expires_at {
        Some(e) => e,
        None => 0u64,
    }) + seq![i.flags]
}

/// Why a layout could not be read.
#[derive(Debug, Clone, Copy, PartialEq, Eq)]
pub enum ItemDecodeError {
    EmptyData,
    KeyLength(VarintError),
    InsufficientKey,
    ValueLength(VarintError),
    InsufficientValue,
    InsufficientExpiresAt,
    InsufficientFlags,
}

/// Reading a layout: the key after its length, the value after its
/// length, eight bytes of expiry (zero meaning none) and a flags byte;
/// anything after that is left alone.
pub open spec fn item_parse(d: Seq<u8>) -> Result<ItemView, ItemDecodeError> {
    if d.len() == 0 {
        Err(ItemDecodeError::EmptyData)
    } else {
        match varint_at(d, 0) {
            Err(e) => Err(ItemDecodeError::KeyLength(e)),
            Ok((kl, c1)) => if kl > d.len() - c1 {
                Err(ItemDecodeError::InsufficientKey)
            } else {
                let c2 = c1 + kl;
                match varint_at(d, c2) {
                    Err(e) => Err(ItemDecodeError::ValueLength(e)),
                    Ok((vl, c3)) => if vl > d.len() - c3 {
                        Err(ItemDecodeError::InsufficientValue)
                    } else {
                        let c4 = c3 + vl;
                        if c4 + 8 > d.len() {
                            Err(ItemDecodeError::InsufficientExpiresAt)
                        } else if c4 + 8 >= d.len() {
                            Err(ItemDecodeError::InsufficientFlags)
                        } else {
                            let e = spec_u64_from_le_bytes(d.subrange(c4, c4 + 8));
                            Ok(
                                ItemView {
                                    key: d.subrange(c1, c2),
                                    value: d.subrange(c3, c4),
                                    expires_at: if e == 0 {
                                        None
                                    } else {
                                        Some(e)
                                    },
                                    flags: d[c4 + 8],
                                },
                            )
                        }
                    },
                }
            },
        }
    }
}

impl Item {
    /// An entry with no flags.
    pub fn new(key: Vec<u8>, value: Vec<u8>, expires_at: Option<u64>) -> (i: Self)
        ensures
            i@ == (ItemView { key: key@, value: value@, expires_at, flags: 0 }),
    {
        Item { key, value, expires_at, flags: 0 }
    }

    /// An entry that expires `ttl_seconds` after the time `now`.
    pub fn with_ttl_at(key: Vec<u8>, value: Vec<u8>, ttl_seconds: u64, now: u64) -> (i: Self)
        requires
            now + ttl_seconds <= u64::MAX,
        ensures
            i@ == (ItemView { key: key@, value: value@, expires_at: Some((now + ttl_seconds) as u64), flags: 0 }),
    {
        Item { key, value, expires_at: Some(now + ttl_seconds), flags: 0 }
    }

    /// An entry that expires `ttl_seconds` from now (see `with_ttl_at`); an
    /// expiry past the largest time counts as that time.
    pub fn with_ttl(key: Vec<u8>, value: Vec<u8>, ttl_seconds: u64) -> (i: Self)
        ensures
            i@.key == key@,
            i@.value == value@,
            i@.expires_at is Some,
            i@.flags == 0,
            exists|now: u64| i@.expires_at == Some(#[trigger] expiry_time(now, ttl_seconds)),
    {
        let now = now_seconds();
        let ttl = if ttl_seconds > u64::MAX - now {
            u64::MAX - now
        } else {
            ttl_seconds
        };
        let i = Self::with_ttl_at(key, value, ttl, now);
        assert(i@.expires_at == Some(expiry_time(now, ttl_seconds)));
        i
    }

    /// Whether the entry has expired at the time `now`.
    pub fn is_expired_at(&self, now: u64) -> (b: bool)
        ensures
            b == expired_at(self@, now),
    {
        match self.expires_at {
            Some(e) => now >= e,
            None => false,
        }
    }

    /// Whether the entry has expired now.
    pub fn is_expired(&self) -> (b: bool)
        ensures
            self@.expires_at is None ==> !b,
            exists|now: u64| b == #[trigger] expired_at(self@, now),
    {
        let now = now_seconds();
        let b = self.is_expired_at(now);
        assert(b == expired_at(self@, now));
        b
    }

    /// The size of the layout.
    pub fn binary_size(&self) -> (n: usize)
        requires
            item_size(self@) <= usize::MAX,
        ensures
            n == item_size(self@),
    {
        varint_size(self.key.len() as u64) + self.key.len() + varint_size(self.value.len() as u64) + self.value.len() + 8 + 1
    }

    /// The layout.
    pub fn to_binary(&self) -> (b: Vec<u8>)
        ensures
            b@ == item_bytes(self@),
    {
        let mut buf: Vec<u8> = Vec::new();
        write_varint(&mut buf, self.key.len() as u64);
        append_bytes(&mut buf, self.key.as_slice());
        write_varint(&mut buf, self.value.len() as u64);
        append_bytes(&mut buf, self.value.as_slice());
        let e = match self.expires_at {
            Some(e) => e,
            None => 0,
        };
        append_bytes(&mut buf, u64_to_le_bytes(e).as_slice());
        buf.push(self.flags);
        assert(buf@ =~= item_bytes(self@));
        buf
    }

    /// Reads a layout (see `item_parse`).
    pub fn from_binary(data: &[u8]) -> (r: Result<Item, ItemDecodeError>)
        ensures
            match (r, item_parse(data@)) {
                (Ok(i), Ok(v)) => i@ == v,
                (Err(e), Err(f)) => e == f,
                _ => false,
            },
    {
        if data.len() == 0 {
            return Err(ItemDecodeError::EmptyData);
        }
        proof {
            lemma_varint_at_bounds(data@, 0);
        }
        let (kl, c1) = match read_varint_at(data, 0) {
            Ok(x) => x,
            Err(e) => return Err(ItemDecodeError::KeyLength(e)),
        };
        if kl > (data.len() - c1) as u64 {
            return Err(ItemDecodeError::InsufficientKey);
        }
        let c2 = c1 + kl as usize;
        proof {
            lemma_varint_at_bounds(data@, c2 as int);
        }
        let (vl, c3) = match read_varint_at(data, c2) {
            Ok(x) => x,
            Err(e) => return Err(ItemDecodeError::ValueLength(e)),
        };
        if vl > (data.len() - c3) as u64 {
            return Err(ItemDecodeError::InsufficientValue);
        }
        let c4 = c3 + vl as usize;
        if data.len() - c4 < 8 {
            return Err(ItemDecodeError::InsufficientExpiresAt);
        }
        if data.len() - c4 == 8 {
            return Err(ItemDecodeError::InsufficientFlags);
        }
        let key = vstd::slice::slice_to_vec(vstd::slice::slice_subrange(data, c1, c2));
        let value = vstd::slice::slice_to_vec(vstd::slice::slice_subrange(data, c3, c4));
        let raw = u64_from_le_bytes(vstd::slice::slice_subrange(data, c4, c4 + 8));
        let flags = data[c4 + 8];
        Ok(Item {
            key,
            value,
            expires_at: if raw == 0 {
                None
            } else {
                Some(raw)
            },
            flags,
        })
    }
}

proof fn lemma_varint_at_encoded(d: Seq<u8>, c: int, v: u64, rest: Seq<u8>)
    requires
        0 <= c <= d.len(),
        d.skip(c) == varint_bytes(v) + rest,
    ensures
        varint_at(d, c) == Ok::<(u64, int), VarintError>((v, c + varint_bytes(v).len())),
{
    lemma_varint_roundtrip(v, rest);
    crate::protocol::varint::lemma_varint_bytes_len(v);
}

/// Reading back the layout of an entry gives the entry, where its expiry
/// is not the time zero (which the layout cannot tell from none).
#[verifier::spinoff_prover]
#[verifier::rlimit(50)]
pub proof fn lemma_item_roundtrip(i: ItemView)
    requires
        i.key.len() <= u64::MAX,
        i.value.len() <= u64::MAX,
        i.expires_at != Some(0u64),
    ensures
        item_parse(item_bytes(i)) == Ok::<ItemView, ItemDecodeError>(i),
{
    let d = item_bytes(i);
    let kb = varint_bytes(i.key.len() as u64);
    let vb = varint_bytes(i.value.len() as u64);
    let e: u64 = match i.expires_at {
        Some(e) => e,
        None => 0u64,
    };
    let eb = spec_u64_to_le_bytes(e);
    vstd::bytes::lemma_auto_spec_u64_to_from_le_bytes();
    assert(eb.len() == 8);
    let rest1 = i.key + vb + i.value + eb + seq![i.flags];
    assert(d =~= kb + rest1);
    assert(d.skip(0) =~= kb + rest1);
    lemma_varint_at_encoded(d, 0, i.key.len() as u64, rest1);
    let c1 = kb.len() as int;
    let c2 = c1 + i.key.len();
    let rest2 = i.value + eb + seq![i.flags];
    assert(d.skip(c2) =~= vb + rest2);
    lemma_varint_at_encoded(d, c2, i.value.len() as u64, rest2);
    let c3 = c2 + vb.len();
    let c4 = c3 + i.value.len();
    assert(d.len() == c4 + 9);
    assert(d.subrange(c1, c2) =~= i.key);
    assert(d.subrange(c3, c4) =~= i.value);
    assert(d.subrange(c4, c4 + 8) =~= eb);
    assert(d[c4 + 8] == i.flags);
    assert(varint_at(d, 0) == Ok::<(u64, int), VarintError>((i.key.len() as u64, c1)));
    assert(varint_at(d, c2) == Ok::<(u64, int), VarintError>((i.value.len() as u64, c3)));
    assert(spec_u64_from_le_bytes(d.subrange(c4, c4 + 8)) == e);
    assert((if e == 0 { None } else { Some(e) }) == i.expires_at);
}

} // verus!
