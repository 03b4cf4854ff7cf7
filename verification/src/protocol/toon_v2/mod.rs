//! TOON V2: a fixed eleven-byte header, then the key and the value, with
//! strings of two bytes or more sent as numbers.

pub mod fast_decoder;
pub mod fast_encoder;
pub mod flags;

use vstd::prelude::*;
use vstd::bytes::{spec_u16_to_le_bytes, spec_u32_to_le_bytes};
use crate::protocol::toon::StringInterner;

verus! {

/// The two magic bytes of TOON V2.
pub const TOON_V2_MAGIC: [u8; 2] = [0xF0u8, 0x0Du8];

/// The TOON V2 version.
pub const TOON_V2_VERSION: u8 = 2;

/// The size of a command header.
pub const TOON_V2_HEADER_SIZE: usize = 11;

/// The size of a response header.
pub const TOON_V2_RESPONSE_HEADER_SIZE: usize = 9;

/// A TOON V2 command.
#[derive(Debug, Clone, Copy, PartialEq, Eq, Structural)]
pub enum ToonV2Command {
    Ping,
    Get,
    /// SET (named so that it does not shadow the `Set` of specifications)
    Put,
    Del,
    Exists,
    Expire,
    TTL,
    Stats,
    BatchGet,
    BatchSet,
    BatchDel,
}

/// The byte of each command.
pub open spec fn command_byte(c: ToonV2Command) -> u8 {
    match c {
        ToonV2Command::Ping => 0x01,
        ToonV2Command::Get => 0x02,
        ToonV2Command::Put => 0x03,
        ToonV2Command::Del => 0x04,
        ToonV2Command::Exists => 0x05,
        ToonV2Command::Expire => 0x06,
        ToonV2Command::TTL => 0x07,
        ToonV2Command::Stats => 0x08,
        ToonV2Command::BatchGet => 0x10,
        ToonV2Command::BatchSet => 0x11,
        ToonV2Command::BatchDel => 0x12,
    }
}

/// The command that a byte names, if any.
pub open spec fn command_of_byte(b: u8) -> Option<ToonV2Command> {
    if b == 0x01 {
        Some(ToonV2Command::Ping)
    } else if b == 0x02 {
        Some(ToonV2Command::Get)
    } else if b == 0x03 {
        Some(ToonV2Command::Put)
    } else if b == 0x04 {
        Some(ToonV2Command::Del)
    } else if b == 0x05 {
        Some(ToonV2Command::Exists)
    } else if b == 0x06 {
        Some(ToonV2Command::Expire)
    } else if b == 0x07 {
        Some(ToonV2Command::TTL)
    } else if b == 0x08 {
        Some(ToonV2Command::Stats)
    } else if b == 0x10 {
        Some(ToonV2Command::BatchGet)
    } else if b == 0x11 {
        Some(ToonV2Command::BatchSet)
    } else if b == 0x12 {
        Some(ToonV2Command::BatchDel)
    } else {
        None
    }
}

impl ToonV2Command {
    /// The command that `byte` names, if any.
    pub fn from_byte(byte: u8) -> (c: Option<Self>)
        ensures
            c == command_of_byte(byte),
    {
        match byte {
            0x01 => Some(ToonV2Command::Ping),
            0x02 => Some(ToonV2Command::Get),
            0x03 => Some(ToonV2Command::Put),
            0x04 => Some(ToonV2Command::Del),
            0x05 => Some(ToonV2Command::Exists),
            0x06 => Some(ToonV2Command::Expire),
            0x07 => Some(ToonV2Command::TTL),
            0x08 => Some(ToonV2Command::Stats),
            0x10 => Some(ToonV2Command::BatchGet),
            0x11 => Some(ToonV2Command::BatchSet),
            0x12 => Some(ToonV2Command::BatchDel),
            _ => None,
        }
    }

    /// The byte of this command.
    pub fn to_byte(&self) -> (b: u8)
        ensures
            b == command_byte(*self),
    {
        match self {
            ToonV2Command::Ping => 0x01,
            ToonV2Command::Get => 0x02,
            ToonV2Command::Put => 0x03,
            ToonV2Command::Del => 0x04,
            ToonV2Command::Exists => 0x05,
            ToonV2Command::Expire => 0x06,
            ToonV2Command::TTL => 0x07,
            ToonV2Command::Stats => 0x08,
            ToonV2Command::BatchGet => 0x10,
            ToonV2Command::BatchSet => 0x11,
            ToonV2Command::BatchDel => 0x12,
        }
    }
}

/// Reading the byte of a command gives the command; a byte that names a
/// command is that command's byte.
pub proof fn lemma_command_byte_roundtrip(c: ToonV2Command, b: u8)
    ensures
        command_of_byte(command_byte(c)) == Some(c),
        command_of_byte(b) == Some(c) ==> command_byte(c) == b,
{
}

/// A command header: magic, version, command byte, flags, key and value
/// lengths.
#[derive(Debug, Clone, Copy)]
pub struct ToonV2Packet {
    pub magic: [u8; 2],
    pub version: u8,
    pub command: u8,
    pub flags: u8,
    pub key_len: u16,
    pub value_len: u32,
}

/// The eleven bytes of a command header: magic, version, command byte,
/// flags, the key length (two bytes) and the value length (four bytes),
/// little-endian.
pub open spec fn header_bytes(p: ToonV2Packet) -> Seq<u8> {
    p.magic@ + seq![p.version, p.command, p.flags] + spec_u16_to_le_bytes(p.key_len)
        + spec_u32_to_le_bytes(p.value_len)
}

impl ToonV2Packet {
    pub const HEADER_SIZE: usize = 11;

    /// A header of the current version without flags.
    pub fn new(command: ToonV2Command, key_len: u16, value_len: u32) -> (p: Self)
        ensures
            p.magic@ == seq![0xF0u8, 0x0Du8],
            p.version == TOON_V2_VERSION,
            p.command == command_byte(command),
            p.flags == 0,
            p.key_len == key_len,
            p.value_len == value_len,
    {
        let magic: [u8; 2] = TOON_V2_MAGIC;
        assert(magic@ == seq![0xF0u8, 0x0Du8]);
        ToonV2Packet { magic, version: TOON_V2_VERSION, command: command.to_byte(), flags: 0, key_len, value_len }
    }

    /// A header of the current version with the given flags.
    pub fn with_flags(command: ToonV2Command, key_len: u16, value_len: u32, flags: u8) -> (p: Self)
        ensures
            p.magic@ == seq![0xF0u8, 0x0Du8],
            p.version == TOON_V2_VERSION,
            p.command == command_byte(command),
            p.flags == flags,
            p.key_len == key_len,
            p.value_len == value_len,
    {
        let magic: [u8; 2] = TOON_V2_MAGIC;
        assert(magic@ == seq![0xF0u8, 0x0Du8]);
        ToonV2Packet { magic, version: TOON_V2_VERSION, command: command.to_byte(), flags, key_len, value_len }
    }

    /// The size of the packet: header, key and value.
    pub fn total_size(&self) -> (n: usize)
        requires
            11 + self.key_len + self.value_len <= usize::MAX,
        ensures
            n == 11 + self.key_len + self.value_len,
    {
        11 + self.key_len as usize + self.value_len as usize
    }

    /// Whether `bytes` starts with the TOON V2 magic.
    pub fn is_valid_magic(bytes: &[u8]) -> (b: bool)
        ensures
            b == (bytes@.len() >= 2 && bytes@[0] == 0xF0 && bytes@[1] == 0x0D),
    {
        bytes.len() >= 2 && bytes[0] == 0xF0 && bytes[1] == 0x0D
    }

    /// The command that the command byte names, if any.
    pub fn get_command(&self) -> (c: Option<ToonV2Command>)
        ensures
            c == command_of_byte(self.command),
    {
        ToonV2Command::from_byte(self.command)
    }
}


/// What interning `s` in `st` gives: the number it has, or the next one,
/// and the strings held afterwards.
pub open spec fn intern_spec(st: Seq<Seq<char>>, s: Seq<char>) -> (u32, Seq<Seq<char>>) {
    if st.contains(s) {
        (st.index_of(s) as u32, st)
    } else {
        (st.len() as u32, st.push(s))
    }
}

/// Numbers strings for TOON V2 in the order they are first seen.
pub struct FastStringInterner {
    interner: StringInterner,
}

impl FastStringInterner {
    /// An interner that holds no string.
    pub fn new() -> (i: Self)
        ensures
            i.wf(),
            i.strings() == Seq::<Seq<char>>::empty(),
    {
        FastStringInterner { interner: StringInterner::new() }
    }

    /// The strings held, by number.
    pub closed spec fn strings(&self) -> Seq<Seq<char>> {
        self.interner@
    }

    /// No string is held twice.
    pub closed spec fn wf(&self) -> bool {
        self.interner.wf()
    }

    /// The number of `s`, numbering it next if it has none.
    pub fn intern_fast(&mut self, s: &str) -> (id: u32)
        requires
            old(self).wf(),
            old(self).strings().len() < u32::MAX,
        ensures
            final(self).wf(),
            (id, final(self).strings()) == intern_spec(old(self).strings(), s@),
    {
        let id = self.interner.intern(s);
        proof {
            if old(self).strings().contains(s@) {
                let k = old(self).strings().index_of(s@);
                assert(old(self).strings()[k] == s@);
            }
        }
        id
    }

    /// The string numbered `id`, if any.
    pub fn get_fast(&self, id: u32) -> (s: Option<String>)
        ensures
            match s {
                Some(t) => (id as int) < self.strings().len() && t@ == self.strings()[id as int],
                None => id as int >= self.strings().len(),
            },
    {
        match self.interner.get(id) {
            Some(t) => Some(t.to_string()),
            None => None,
        }
    }

    /// Strings of two bytes or more are worth a number.
    pub fn should_intern(s: &str) -> (b: bool)
        ensures
            b == (vstd::utf8::encode_utf8(s@).len() >= 2),
    {
        s.as_bytes().len() >= 2
    }

    /// The number of strings held.
    pub fn len(&self) -> (n: usize)
        ensures
            n == self.strings().len(),
    {
        self.interner.len()
    }
}

/// One command of a batch.
#[derive(Debug, Clone)]
pub struct ToonV2SingleCommand {
    pub command: ToonV2Command,
    pub key: Vec<u8>,
    pub value: Option<Vec<u8>>,
    pub ttl: Option<u64>,
}

/// The bytes of a command: header, key and value.
pub open spec fn single_command_size(c: ToonV2SingleCommand) -> int {
    11 + c.key@.len() + match c.value {
        Some(v) => v@.len() as int,
        None => 0,
    }
}

/// Commands gathered for one round trip, with their total size.
#[derive(Debug, Clone)]
pub struct ToonV2Batch {
    pub commands: Vec<ToonV2SingleCommand>,
    pub total_size: usize,
}

impl ToonV2Batch {
    /// An empty batch.
    pub fn new() -> (b: Self)
        ensures
            b.commands@.len() == 0,
            b.total_size == 0,
    {
        ToonV2Batch { commands: Vec::new(), total_size: 0 }
    }

    /// Adds a command and its size.
    pub fn add_command(&mut self, cmd: ToonV2SingleCommand)
        requires
            old(self).total_size + single_command_size(cmd) <= usize::MAX,
        ensures
            final(self).commands@ == old(self).commands@.push(cmd),
            final(self).total_size == old(self).total_size + single_command_size(cmd),
    {
        let value_len = match &cmd.value {
            Some(v) => v.len(),
            None => 0,
        };
        self.total_size = self.total_size + 11 + cmd.key.len() + value_len;
        self.commands.push(cmd);
    }

    /// Whether the batch holds `max_batch_size` commands or more.
    pub fn is_full(&self, max_batch_size: usize) -> (b: bool)
        ensures
            b == (self.commands@.len() >= max_batch_size),
    {
        self.commands.len() >= max_batch_size
    }

    /// The expected size of the answers: 64 bytes per command.
    pub fn estimated_response_size(&self) -> (n: usize)
        requires
            self.commands@.len() * 64 <= usize::MAX,
        ensures
            n == self.commands@.len() * 64,
    {
        self.commands.len() * 64
    }
}

/// A TOON V2 response type.
#[derive(Debug, Clone, Copy, PartialEq, Eq, Structural)]
pub enum ToonV2Response {
    Okay,
    Pong,
    Value,
    Null,
    Error,
    Integer,
    BatchResponse,
}

/// The byte of each response type.
pub open spec fn response_byte(r: ToonV2Response) -> u8 {
    match r {
        ToonV2Response::Okay => 0x01,
        ToonV2Response::Pong => 0x02,
        ToonV2Response::Value => 0x03,
        ToonV2Response::Null => 0x04,
        ToonV2Response::Error => 0x05,
        ToonV2Response::Integer => 0x06,
        ToonV2Response::BatchResponse => 0x10,
    }
}

impl ToonV2Response {
    /// The byte of this response type.
    pub fn to_byte(&self) -> (b: u8)
        ensures
            b == response_byte(*self),
    {
        match self {
            ToonV2Response::Okay => 0x01,
            ToonV2Response::Pong => 0x02,
            ToonV2Response::Value => 0x03,
            ToonV2Response::Null => 0x04,
            ToonV2Response::Error => 0x05,
            ToonV2Response::Integer => 0x06,
            ToonV2Response::BatchResponse => 0x10,
        }
    }
}

/// A response header: magic, version, response type, flags, data length.
#[derive(Debug, Clone, Copy)]
pub struct ToonV2ResponsePacket {
    pub magic: [u8; 2],
    pub version: u8,
    pub response_type: u8,
    pub flags: u8,
    pub data_len: u32,
}

/// The nine bytes of a response header: magic, version, response type,
/// flags and the data length (four bytes, little-endian).
pub open spec fn response_header_bytes(p: ToonV2ResponsePacket) -> Seq<u8> {
    p.magic@ + seq![p.version, p.response_type, p.flags] + spec_u32_to_le_bytes(p.data_len)
}

impl ToonV2ResponsePacket {
    pub const HEADER_SIZE: usize = 9;

    /// A response header of the current version without flags.
    pub fn new(response_type: ToonV2Response, data_len: u32) -> (p: Self)
        ensures
            p.magic@ == seq![0xF0u8, 0x0Du8],
            p.version == TOON_V2_VERSION,
            p.response_type == response_byte(response_type),
            p.flags == 0,
            p.data_len == data_len,
    {
        let magic: [u8; 2] = TOON_V2_MAGIC;
        assert(magic@ == seq![0xF0u8, 0x0Du8]);
        ToonV2ResponsePacket { magic, version: TOON_V2_VERSION, response_type: response_type.to_byte(), flags: 0, data_len }
    }
}

/// Counters of a TOON V2 codec; each is a 32-bit counter that wraps.
#[derive(Debug, Clone, Copy, Default, PartialEq, Eq, Structural)]
pub struct ToonV2Metrics {
    pub commands_processed: u32,
    pub bytes_processed: u32,
    pub batch_operations: u32,
    pub string_intern_hits: u32,
    pub string_intern_misses: u32,
    pub simd_operations: u32,
}

/// `a + b` on a 32-bit counter that wraps.
pub open spec fn wrap32(a: u32, b: u32) -> u32 {
    vstd::wrapping::u32_specs::wrapping_add(a, b)
}

impl ToonV2Metrics {
    /// All counters at zero.
    pub open spec fn new_spec() -> ToonV2Metrics {
        ToonV2Metrics {
            commands_processed: 0,
            bytes_processed: 0,
            batch_operations: 0,
            string_intern_hits: 0,
            string_intern_misses: 0,
            simd_operations: 0,
        }
    }

    /// All counters at zero.
    pub fn new() -> (m: Self)
        ensures
            m == (ToonV2Metrics {
                commands_processed: 0,
                bytes_processed: 0,
                batch_operations: 0,
                string_intern_hits: 0,
                string_intern_misses: 0,
                simd_operations: 0,
            }),
    {
        ToonV2Metrics {
            commands_processed: 0,
            bytes_processed: 0,
            batch_operations: 0,
            string_intern_hits: 0,
            string_intern_misses: 0,
            simd_operations: 0,
        }
    }

    /// Counts a command of `bytes` bytes.
    pub fn record_command(&mut self, bytes: u32)
        ensures
            *final(self) == (ToonV2Metrics {
                commands_processed: wrap32(old(self).commands_processed, 1),
                bytes_processed: wrap32(old(self).bytes_processed, bytes),
                ..*old(self)
            }),
    {
        self.commands_processed = self.commands_processed.wrapping_add(1);
        self.bytes_processed = self.bytes_processed.wrapping_add(bytes);
    }

    /// Counts a batch of `batch_size` commands.
    pub fn record_batch(&mut self, batch_size: u32)
        ensures
            *final(self) == (ToonV2Metrics {
                batch_operations: wrap32(old(self).batch_operations, 1),
                commands_processed: wrap32(old(self).commands_processed, batch_size),
                ..*old(self)
            }),
    {
        self.batch_operations = self.batch_operations.wrapping_add(1);
        self.commands_processed = self.commands_processed.wrapping_add(batch_size);
    }

    /// Counts a string sent as a number.
    pub fn record_intern_hit(&mut self)
        ensures
            *final(self) == (ToonV2Metrics { string_intern_hits: wrap32(old(self).string_intern_hits, 1), ..*old(self) }),
    {
        self.string_intern_hits = self.string_intern_hits.wrapping_add(1);
    }

    /// Counts a string sent in full.
    pub fn record_intern_miss(&mut self)
        ensures
            *final(self) == (ToonV2Metrics { string_intern_misses: wrap32(old(self).string_intern_misses, 1), ..*old(self) }),
    {
        self.string_intern_misses = self.string_intern_misses.wrapping_add(1);
    }

    /// Counts a SIMD operation.
    pub fn record_simd_op(&mut self)
        ensures
            *final(self) == (ToonV2Metrics { simd_operations: wrap32(old(self).simd_operations, 1), ..*old(self) }),
    {
        self.simd_operations = self.simd_operations.wrapping_add(1);
    }
}

} // verus!
