//! Finding TOON packets in a buffer: each starts with the four bytes `TOON`,
//! a version byte that must be 1, a flags byte and a big-endian 16-bit
//! payload length. The search for the magic goes through `memchr`.

use vstd::prelude::*;
use std::time::{Duration, Instant};
use crate::clock::{duration_nanos, duration_secs, duration_since, instant_now};

verus! {

/// Whether `needle` occurs in `hay` at `i`.
pub open spec fn occurs_at(hay: Seq<u8>, needle: Seq<u8>, i: int) -> bool {
    0 <= i && i + needle.len() <= hay.len() && hay.subrange(i, i + needle.len()) == needle
}

/// Calls `memchr::memmem::find`. Claimed, as its documentation says: the
/// position of the first occurrence of the needle in the haystack, or None
/// where the needle does not occur.
#[verifier::external_body]
fn memmem_find(haystack: &[u8], needle: &[u8]) -> (r: Option<usize>)
    ensures
        match r {
            Some(i) => occurs_at(haystack@, needle@, i as int) && forall|j: int|
                0 <= j < i ==> !#[trigger] occurs_at(haystack@, needle@, j),
            None => forall|j: int| !#[trigger] occurs_at(haystack@, needle@, j),
        },
{
    memchr::memmem::find(haystack, needle)
}

/// The magic that starts a packet: `TOON`.
pub open spec fn toon_magic() -> Seq<u8> {
    seq![84u8, 79u8, 79u8, 78u8]
}

/// Whether a packet magic starts at `i`.
pub open spec fn toon_at(d: Seq<u8>, i: int) -> bool {
    occurs_at(d, toon_magic(), i)
}

/// The first position at or after `i` where a magic starts, or the length
/// of the data where none does.
pub open spec fn first_toon(d: Seq<u8>, i: int) -> int
    decreases d.len() - i,
{
    if i < 0 || i + 4 > d.len() {
        d.len() as int
    } else if toon_at(d, i) {
        i
    } else {
        first_toon(d, i + 1)
    }
}

/// The kind of a packet, from the low four bits of its flags.
#[derive(Debug, Clone, Copy, PartialEq, Eq)]
pub enum PacketType {
    Command,
    Response,
    Batch,
    Heartbeat,
}

/// The kind a flags byte gives: 1 command, 2 response, 3 batch, 4
/// heartbeat in the low four bits, command for anything else.
pub open spec fn packet_type_spec(flags: u8) -> PacketType {
    let low = flags % 16;
    if low == 2 {
        PacketType::Response
    } else if low == 3 {
        PacketType::Batch
    } else if low == 4 {
        PacketType::Heartbeat
    } else {
        PacketType::Command
    }
}

/// What a packet header gives, as values.
pub struct PacketInfoView {
    pub version: u8,
    pub flags: u8,
    pub payload_length: int,
    pub total_length: int,
    pub packet_type: PacketType,
}

/// Why a header was refused.
#[derive(Debug, Clone, Copy, PartialEq, Eq)]
pub enum HeaderError {
    /// Fewer than eight bytes.
    Insufficient,
    /// The data does not start with `TOON`.
    BadMagic,
    /// The version is not 1.
    UnsupportedVersion(u8),
    /// The payload is larger than allowed.
    TooLarge(usize),
}

/// The header at the start of `d`: at least eight bytes, the magic, version
/// 1, and a payload no larger than `max`; the packet is the header and the
/// payload.
pub open spec fn header_spec(d: Seq<u8>, max: usize) -> Result<PacketInfoView, HeaderError> {
    if d.len() < 8 {
        Err(HeaderError::Insufficient)
    } else if !toon_at(d, 0) {
        Err(HeaderError::BadMagic)
    } else if d[4] != 1u8 {
        Err(HeaderError::UnsupportedVersion(d[4]))
    } else if d[6] * 256 + d[7] > max {
        Err(HeaderError::TooLarge((d[6] * 256 + d[7]) as usize))
    } else {
        Ok(
            PacketInfoView {
                version: d[4],
                flags: d[5],
                payload_length: d[6] * 256 + d[7],
                total_length: 8 + d[6] * 256 + d[7],
                packet_type: packet_type_spec(d[5]),
            },
        )
    }
}

/// What a search of the data from a position finds.
pub struct ScanView {
    /// The complete packets: start, length and kind.
    pub packets: Seq<(int, int, PacketType)>,
    /// The packet cut off at the end of the data: its start and full length.
    pub incomplete: Option<(int, int)>,
    /// The magics met whose header was refused.
    pub errors: nat,
    /// The magics met.
    pub hits: nat,
}

/// The packets found from `from` on: at each magic the header is read; a
/// complete packet is taken and the search goes on after it; a refused
/// header is skipped by its four magic bytes; a packet that runs past the
/// end stops the search.
pub open spec fn scan_spec(d: Seq<u8>, from: int, max: usize) -> ScanView
    decreases d.len() - from,
{
    let none = ScanView { packets: Seq::empty(), incomplete: None, errors: 0, hits: 0 };
    if from < 0 || from > d.len() {
        none
    } else {
        let p = first_toon(d, from);
        proof {
            lemma_first_toon(d, from);
        }
        if p >= d.len() || p < from {
            none
        } else {
            match header_spec(d.skip(p), max) {
                Ok(info) => {
                    if p + info.total_length <= d.len() {
                        let r = scan_spec(d, p + info.total_length, max);
                        ScanView {
                            packets: seq![(p, info.total_length, info.packet_type)] + r.packets,
                            hits: r.hits + 1,
                            ..r
                        }
                    } else {
                        ScanView { incomplete: Some((p, info.total_length)), hits: 1, ..none }
                    }
                },
                Err(_) => {
                    let r = scan_spec(d, p + 4, max);
                    ScanView { errors: r.errors + 1, hits: r.hits + 1, ..r }
                },
            }
        }
    }
}

/// Facts about `first_toon`: it lies in range, a magic starts there where it
/// is not the end, and none starts before it from `i`.
pub proof fn lemma_first_toon(d: Seq<u8>, i: int)
    requires
        0 <= i <= d.len(),
    ensures
        i <= first_toon(d, i) <= d.len(),
        first_toon(d, i) < d.len() ==> toon_at(d, first_toon(d, i)),
        forall|j: int| i <= j < first_toon(d, i) ==> !#[trigger] toon_at(d, j),
        first_toon(d, i) == d.len() ==> forall|j: int| i <= j ==> !#[trigger] toon_at(d, j),
    decreases d.len() - i,
{
    if i + 4 <= d.len() && !toon_at(d, i) {
        lemma_first_toon(d, i + 1);
    }
}

/// Reads the header at the start of `data`.
fn parse_toon_packet_header(data: &[u8], max: usize) -> (r: Result<PacketInfo, HeaderError>)
    ensures
        match (r, header_spec(data@, max)) {
            (Ok(i), Ok(si)) => i@ == si,
            (Err(e), Err(se)) => e == se,
            _ => false,
        },
{
    if data.len() < 8 {
        return Err(HeaderError::Insufficient);
    }
    if !(data[0] == 84 && data[1] == 79 && data[2] == 79 && data[3] == 78) {
        proof {
            if toon_at(data@, 0) {
                assert(data@.subrange(0, 4)[0] == data@[0]);
                assert(data@.subrange(0, 4)[1] == data@[1]);
                assert(data@.subrange(0, 4)[2] == data@[2]);
                assert(data@.subrange(0, 4)[3] == data@[3]);
            }
        }
        return Err(HeaderError::BadMagic);
    }
    assert(data@.subrange(0, 4) =~= toon_magic());
    let version = data[4];
    if version != 1 {
        return Err(HeaderError::UnsupportedVersion(version));
    }
    let flags = data[5];
    let payload_length = (data[6] as usize) * 256 + data[7] as usize;
    if payload_length > max {
        return Err(HeaderError::TooLarge(payload_length));
    }
    Ok(
        PacketInfo {
            version,
            flags,
            payload_length,
            total_length: 8 + payload_length,
            packet_type: determine_packet_type(flags),
        },
    )
}

/// The kind a flags byte gives.
fn determine_packet_type(flags: u8) -> (t: PacketType)
    ensures
        t == packet_type_spec(flags),
{
    let low = flags & 0x0F;
    assert(flags & 0x0F == flags % 16) by (bit_vector);
    if low == 2 {
        PacketType::Response
    } else if low == 3 {
        PacketType::Batch
    } else if low == 4 {
        PacketType::Heartbeat
    } else {
        PacketType::Command
    }
}

/// What a packet header gives.
pub struct PacketInfo {
    pub version: u8,
    pub flags: u8,
    pub payload_length: usize,
    pub total_length: usize,
    pub packet_type: PacketType,
}

impl View for PacketInfo {
    type V = PacketInfoView;

    open spec fn view(&self) -> PacketInfoView {
        PacketInfoView {
            version: self.version,
            flags: self.flags,
            payload_length: self.payload_length as int,
            total_length: self.total_length as int,
            packet_type: self.packet_type,
        }
    }
}

/// Settings of the packet finder.
#[derive(Debug, Clone, Copy, PartialEq, Eq)]
pub struct SIMDParserConfig {
    pub max_cached_packets: usize,
    pub max_incomplete_packets: usize,
    pub enable_boundary_cache: bool,
    pub enable_simd: bool,
    pub cleanup_interval_secs: u64,
    pub max_packet_size: usize,
}

impl SIMDParserConfig {
    /// The default settings: 1000 cached boundaries, 100 cut-off packets,
    /// caching and the fast search on, clean-up each 30 seconds, packets up
    /// to 16 MiB.
    pub open spec fn default_spec() -> SIMDParserConfig {
        SIMDParserConfig {
            max_cached_packets: 1000,
            max_incomplete_packets: 100,
            enable_boundary_cache: true,
            enable_simd: true,
            cleanup_interval_secs: 30,
            max_packet_size: 16777216,
        }
    }
}

impl Default for SIMDParserConfig {
    fn default() -> (c: Self)
        ensures
            c == SIMDParserConfig::default_spec(),
    {
        SIMDParserConfig {
            max_cached_packets: 1000,
            max_incomplete_packets: 100,
            enable_boundary_cache: true,
            enable_simd: true,
            cleanup_interval_secs: 30,
            max_packet_size: 16 * 1024 * 1024,
        }
    }
}

/// Where a complete packet was found, and when.
#[derive(Debug, Clone, Copy)]
pub struct PacketBoundary {
    pub start: usize,
    pub length: usize,
    pub packet_type: PacketType,
    pub timestamp: Instant,
}

/// A packet cut off at the end of the data, and when it was seen.
#[derive(Debug, Clone, Copy)]
pub struct IncompletePacket {
    pub start_offset: usize,
    pub expected_length: usize,
    pub received_length: usize,
    pub timestamp: Instant,
}

/// The place of a boundary, without its time.
pub open spec fn boundary_view(b: PacketBoundary) -> (usize, usize, PacketType) {
    (b.start, b.length, b.packet_type)
}

/// The place of a cut-off packet, without its time.
pub open spec fn incomplete_view(p: IncompletePacket) -> (usize, usize, usize) {
    (p.start_offset, p.expected_length, p.received_length)
}

/// Counters of the packet finder.
#[derive(Debug, Clone, Copy, PartialEq, Eq)]
pub struct SIMDParserStats {
    pub total_parses: u64,
    pub packets_found: u64,
    pub cache_hits: u64,
    pub cache_misses: u64,
    pub incomplete_packets: usize,
    pub parse_errors: u64,
    pub simd_operations: u64,
    pub avg_parse_time_ns: u64,
    pub bytes_processed: u64,
    pub cleanup_operations: usize,
}

impl SIMDParserStats {
    /// All counters at zero.
    pub open spec fn zero_spec() -> SIMDParserStats {
        SIMDParserStats {
            total_parses: 0,
            packets_found: 0,
            cache_hits: 0,
            cache_misses: 0,
            incomplete_packets: 0,
            parse_errors: 0,
            simd_operations: 0,
            avg_parse_time_ns: 0,
            bytes_processed: 0,
            cleanup_operations: 0,
        }
    }
}

/// The counters at one moment.
pub type SIMDParserStatsSnapshot = SIMDParserStats;

/// The cache after a boundary is added: the oldest one is dropped where it
/// is full.
pub open spec fn cache_push(c: Seq<(usize, usize, PacketType)>, b: (usize, usize, PacketType), max: usize) -> Seq<(usize, usize, PacketType)> {
    (if c.len() >= max {
        c.skip(1)
    } else {
        c
    }).push(b)
}

/// The cache after the boundaries are added one after the other.
pub open spec fn cache_push_all(c: Seq<(usize, usize, PacketType)>, bs: Seq<(usize, usize, PacketType)>, max: usize) -> Seq<(usize, usize, PacketType)>
    decreases bs.len(),
{
    if bs.len() == 0 {
        c
    } else {
        cache_push(cache_push_all(c, bs.drop_last(), max), bs.last(), max)
    }
}

/// The cut-off packets after one is added: the oldest one is dropped where
/// the list is full and not empty.
pub open spec fn incomplete_push(l: Seq<(usize, usize, usize)>, p: (usize, usize, usize), max: usize) -> Seq<(usize, usize, usize)> {
    (if l.len() >= max && l.len() > 0 {
        l.skip(1)
    } else {
        l
    }).push(p)
}

/// The places of complete packets, as sizes.
pub open spec fn found_places(ps: Seq<(int, int, PacketType)>) -> Seq<(usize, usize, PacketType)> {
    ps.map_values(|p: (int, int, PacketType)| (p.0 as usize, p.1 as usize, p.2))
}

/// Whether each slice holds the bytes of the packet at the same index.
pub open spec fn slices_of(r: Seq<&[u8]>, d: Seq<u8>, ps: Seq<(int, int, PacketType)>) -> bool {
    r.len() == ps.len() && forall|k: int| 0 <= k < r.len() ==> #[trigger] r[k]@ == d.subrange(ps[k].0, ps[k].0 + ps[k].1)
}

/// The cut-off packets after a search: the one it stopped at is added.
pub open spec fn incomplete_after(l: Seq<(usize, usize, usize)>, d: Seq<u8>, v: ScanView, max: usize) -> Seq<(usize, usize, usize)> {
    match v.incomplete {
        Some((p, t)) => incomplete_push(l, (p as usize, t as usize, (d.len() - p) as usize), max),
        None => l,
    }
}

/// Where the search from `ss` finds a magic at `a`, the search from `ss` is
/// the one from `a`; where it finds none, it finds nothing.
proof fn lemma_first_toon_at(d: Seq<u8>, ss: int, a: int)
    requires
        0 <= ss <= a <= d.len(),
        a < d.len() ==> toon_at(d, a),
        forall|j: int| ss <= j < a ==> !#[trigger] toon_at(d, j),
        a == d.len() ==> forall|j: int| ss <= j ==> !#[trigger] toon_at(d, j),
    ensures
        first_toon(d, ss) == a,
{
    lemma_first_toon(d, ss);
    let f = first_toon(d, ss);
    if f < a {
        assert(toon_at(d, f));
    } else if f > a {
        assert(!toon_at(d, a));
        if a == d.len() {
            assert(false);
        }
    }
}

/// The elements of the first `n` whose age is under `limit`, in order.
pub open spec fn young<T>(s: Seq<T>, ages: Seq<u64>, limit: u64, n: nat) -> Seq<T>
    decreases n,
{
    if n == 0 {
        Seq::empty()
    } else {
        let r = young(s, ages, limit, (n - 1) as nat);
        if ages[n - 1] < limit {
            r.push(s[n - 1])
        } else {
            r
        }
    }
}

/// The cached boundaries that lie in `[offset, offset + length)` and whose
/// age is under one second, in order.
pub open spec fn cached_in_range(c: Seq<(usize, usize, PacketType)>, ages: Seq<u64>, offset: int, end: int, n: nat) -> Seq<(usize, usize, PacketType)>
    decreases n,
{
    if n == 0 {
        Seq::empty()
    } else {
        let r = cached_in_range(c, ages, offset, end, (n - 1) as nat);
        let b = c[n - 1];
        if b.0 >= offset && b.0 + b.1 <= end && ages[n - 1] < 1 {
            r.push(b)
        } else {
            r
        }
    }
}

/// Finds TOON packets in buffers and keeps counters.
pub struct SIMDPacketParser {
    packet_cache: Vec<PacketBoundary>,
    incomplete_packets: Vec<IncompletePacket>,
    config: SIMDParserConfig,
    stats: SIMDParserStats,
    last_cleanup: Instant,
}

impl SIMDPacketParser {
    /// The settings.
    pub closed spec fn settings(&self) -> SIMDParserConfig {
        self.config
    }

    /// The counters.
    pub closed spec fn figures(&self) -> SIMDParserStats {
        self.stats
    }

    /// The boundaries cached, oldest first.
    pub closed spec fn cache(&self) -> Seq<(usize, usize, PacketType)> {
        self.packet_cache@.map_values(|b: PacketBoundary| boundary_view(b))
    }

    /// The cut-off packets known, oldest first.
    pub closed spec fn incomplete(&self) -> Seq<(usize, usize, usize)> {
        self.incomplete_packets@.map_values(|p: IncompletePacket| incomplete_view(p))
    }

    /// A finder with the default settings.
    pub fn new() -> (p: Self)
        ensures
            p.settings() == SIMDParserConfig::default_spec(),
            p.figures() == SIMDParserStats::zero_spec(),
            p.cache().len() == 0,
            p.incomplete().len() == 0,
    {
        Self::with_config(SIMDParserConfig::default())
    }

    /// A finder with the given settings.
    pub fn with_config(config: SIMDParserConfig) -> (p: Self)
        ensures
            p.settings() == config,
            p.figures() == SIMDParserStats::zero_spec(),
            p.cache().len() == 0,
            p.incomplete().len() == 0,
    {
        let p = SIMDPacketParser {
            packet_cache: Vec::new(),
            incomplete_packets: Vec::new(),
            config,
            stats: SIMDParserStats {
                total_parses: 0,
                packets_found: 0,
                cache_hits: 0,
                cache_misses: 0,
                incomplete_packets: 0,
                parse_errors: 0,
                simd_operations: 0,
                avg_parse_time_ns: 0,
                bytes_processed: 0,
                cleanup_operations: 0,
            },
            last_cleanup: instant_now(),
        };
        assert(p.packet_cache@.map_values(|b: PacketBoundary| boundary_view(b)) =~= Seq::empty());
        assert(p.incomplete_packets@.map_values(|q: IncompletePacket| incomplete_view(q)) =~= Seq::empty());
        p
    }

    fn cache_packet_boundary(&mut self, boundary: PacketBoundary)
        requires
            old(self).config.max_cached_packets > 0,
        ensures
            final(self).cache() == cache_push(old(self).cache(), boundary_view(boundary), old(self).config.max_cached_packets),
            final(self).config == old(self).config,
            final(self).stats == old(self).stats,
            final(self).incomplete_packets == old(self).incomplete_packets,
            final(self).last_cleanup == old(self).last_cleanup,
    {
        let ghost c = self.cache();
        if self.packet_cache.len() >= self.config.max_cached_packets {
            self.packet_cache.remove(0);
            assert(self.cache() =~= c.skip(1));
        }
        self.packet_cache.push(boundary);
        assert(self.cache() =~= cache_push(c, boundary_view(boundary), self.config.max_cached_packets));
    }

    fn track_incomplete_packet(&mut self, incomplete: IncompletePacket)
        ensures
            final(self).incomplete() == incomplete_push(old(self).incomplete(), incomplete_view(incomplete), old(self).config.max_incomplete_packets),
            final(self).stats == (SIMDParserStats { incomplete_packets: final(self).incomplete().len() as usize, ..old(self).stats }),
            final(self).stats.incomplete_packets == final(self).incomplete().len(),
            final(self).config == old(self).config,
            final(self).packet_cache == old(self).packet_cache,
            final(self).last_cleanup == old(self).last_cleanup,
    {
        let ghost l = self.incomplete();
        if self.incomplete_packets.len() >= self.config.max_incomplete_packets && self.incomplete_packets.len() > 0 {
            self.incomplete_packets.remove(0);
            assert(self.incomplete() =~= l.skip(1));
        }
        self.incomplete_packets.push(incomplete);
        assert(self.incomplete() =~= incomplete_push(l, incomplete_view(incomplete), self.config.max_incomplete_packets));
        self.stats.incomplete_packets = self.incomplete_packets.len();
    }

    fn find_packets_simd<'a>(&mut self, data: &'a [u8]) -> (r: Vec<&'a [u8]>)
        requires
            old(self).config.enable_boundary_cache ==> old(self).config.max_cached_packets > 0
                || scan_spec(data@, 0, old(self).config.max_packet_size).packets.len() == 0,
        ensures
            ({
                let v = scan_spec(data@, 0, old(self).config.max_packet_size);
                &&& slices_of(r@, data@, v.packets)
                &&& final(self).cache() == (if old(self).config.enable_boundary_cache {
                    cache_push_all(old(self).cache(), found_places(v.packets), old(self).config.max_cached_packets)
                } else {
                    old(self).cache()
                })
                &&& final(self).incomplete() == incomplete_after(old(self).incomplete(), data@, v, old(self).config.max_incomplete_packets)
                &&& final(self).stats == (SIMDParserStats {
                    packets_found: old(self).stats.packets_found.wrapping_add(v.packets.len() as u64),
                    parse_errors: old(self).stats.parse_errors.wrapping_add(v.errors as u64),
                    simd_operations: old(self).stats.simd_operations.wrapping_add(v.hits as u64),
                    incomplete_packets: if v.incomplete is Some {
                        final(self).incomplete().len() as usize
                    } else {
                        old(self).stats.incomplete_packets
                    },
                    ..old(self).stats
                })
            }),
            final(self).config == old(self).config,
            scan_spec(data@, 0, old(self).config.max_packet_size).incomplete is Some ==> final(self).stats.incomplete_packets == final(self).incomplete().len(),
            final(self).last_cleanup == old(self).last_cleanup,
    {
        let max = self.config.max_packet_size;
        let ghost total = scan_spec(data@, 0, max);
        let needle: Vec<u8> = vec![84u8, 79u8, 79u8, 78u8];
        assert(needle@ =~= toon_magic());
        let mut packets: Vec<&'a [u8]> = Vec::new();
        let mut search_start: usize = 0;
        let mut found: usize = 0;
        let mut errors: usize = 0;
        let mut hits: usize = 0;
        let mut done = false;
        let ghost mut gfound: Seq<(int, int, PacketType)> = Seq::empty();
        let ghost c0 = self.cache();
        while !done
            invariant
                needle@ == toon_magic(),
                max == self.config.max_packet_size,
                self.config == old(self).config,
                self.last_cleanup == old(self).last_cleanup,
                total == scan_spec(data@, 0, max),
                c0 == old(self).cache(),
                self.config.enable_boundary_cache ==> self.config.max_cached_packets > 0 || total.packets.len() == 0,
                search_start <= data@.len(),
                found == gfound.len(),
                found <= hits,
                errors <= hits,
                hits <= data@.len(),
                !done ==> hits <= search_start,
                slices_of(packets@, data@, gfound),
                self.cache() == (if self.config.enable_boundary_cache {
                    cache_push_all(c0, found_places(gfound), self.config.max_cached_packets)
                } else {
                    c0
                }),
                !done ==> ({
                    let rest = scan_spec(data@, search_start as int, max);
                    &&& total.packets == gfound + rest.packets
                    &&& total.errors == errors + rest.errors
                    &&& total.hits == hits + rest.hits
                    &&& total.incomplete == rest.incomplete
                    &&& self.incomplete_packets == old(self).incomplete_packets
                    &&& self.stats == old(self).stats
                }),
                done && total.incomplete is Some ==> self.stats.incomplete_packets == self.incomplete().len(),
                done ==> ({
                    &&& total.packets == gfound
                    &&& total.errors == errors
                    &&& total.hits == hits
                    &&& self.incomplete() == incomplete_after(old(self).incomplete(), data@, total, self.config.max_incomplete_packets)
                    &&& self.stats == (SIMDParserStats {
                        incomplete_packets: if total.incomplete is Some {
                            self.incomplete().len() as usize
                        } else {
                            old(self).stats.incomplete_packets
                        },
                        ..old(self).stats
                    })
                }),
            decreases data@.len() - search_start + (if done { 0int } else { 1int }),
        {
            let hay = vstd::slice::slice_subrange(data, search_start, data.len());
            let ghost rest = scan_spec(data@, search_start as int, max);
            proof {
                assert forall|j: int| 0 <= j implies (#[trigger] occurs_at(hay@, toon_magic(), j) <==> toon_at(data@, search_start + j)) by {
                    if 0 <= j && j + 4 <= hay@.len() {
                        assert(hay@.subrange(j, j + 4) =~= data@.subrange(search_start + j, search_start + j + 4));
                    }
                }
            }
            match memmem_find(hay, needle.as_slice()) {
                None => {
                    proof {
                        assert forall|j: int| search_start <= j implies !#[trigger] toon_at(data@, j) by {
                            assert(!occurs_at(hay@, toon_magic(), j - search_start));
                        }
                        lemma_first_toon_at(data@, search_start as int, data@.len() as int);
                        assert(gfound + rest.packets =~= gfound);
                    }
                    done = true;
                },
                Some(pos) => {
                    let abs = search_start + pos;
                    proof {
                        assert forall|j: int| search_start <= j < abs implies !#[trigger] toon_at(data@, j) by {
                            assert(!occurs_at(hay@, toon_magic(), j - search_start));
                        }
                        lemma_first_toon_at(data@, search_start as int, abs as int);
                    }
                    let tail = vstd::slice::slice_subrange(data, abs, data.len());
                    assert(tail@ =~= data@.skip(abs as int));
                    match parse_toon_packet_header(tail, max) {
                        Ok(info) => {
                            if info.total_length <= data.len() - abs {
                                let end = abs + info.total_length;
                                let ghost item = (abs as int, info.total_length as int, info.packet_type);
                                let ghost rest2 = scan_spec(data@, end as int, max);
                                assert(rest.packets == seq![item] + rest2.packets);
                                packets.push(vstd::slice::slice_subrange(data, abs, end));
                                if self.config.enable_boundary_cache {
                                    assert(total.packets.len() > 0);
                                    self.cache_packet_boundary(PacketBoundary {
                                        start: abs,
                                        length: info.total_length,
                                        packet_type: info.packet_type,
                                        timestamp: instant_now(),
                                    });
                                }
                                proof {
                                    assert(found_places(gfound.push(item)).drop_last() =~= found_places(gfound));
                                    assert(gfound.push(item) + rest2.packets =~= gfound + rest.packets);
                                    gfound = gfound.push(item);
                                }
                                search_start = end;
                                found = found + 1;
                                hits = hits + 1;
                            } else {
                                self.track_incomplete_packet(IncompletePacket {
                                    start_offset: abs,
                                    expected_length: info.total_length,
                                    received_length: data.len() - abs,
                                    timestamp: instant_now(),
                                });
                                hits = hits + 1;
                                proof {
                                    assert(gfound + rest.packets =~= gfound);
                                }
                                done = true;
                            }
                        },
                        Err(_) => {
                            errors = errors + 1;
                            hits = hits + 1;
                            search_start = abs + 4;
                        },
                    }
                },
            }
        }
        self.stats.packets_found = self.stats.packets_found.wrapping_add(found as u64);
        self.stats.parse_errors = self.stats.parse_errors.wrapping_add(errors as u64);
        self.stats.simd_operations = self.stats.simd_operations.wrapping_add(hits as u64);
        packets
    }

    fn find_packets_linear<'a>(&mut self, data: &'a [u8]) -> (r: Vec<&'a [u8]>)
        requires
            data@.len() >= 4,
        ensures
            ({
                let v = scan_spec(data@, 0, old(self).config.max_packet_size);
                &&& slices_of(r@, data@, v.packets)
                &&& final(self).packet_cache == old(self).packet_cache
                &&& final(self).incomplete() == incomplete_after(old(self).incomplete(), data@, v, old(self).config.max_incomplete_packets)
                &&& final(self).stats == (SIMDParserStats {
                    packets_found: old(self).stats.packets_found.wrapping_add(v.packets.len() as u64),
                    parse_errors: old(self).stats.parse_errors.wrapping_add(v.errors as u64),
                    incomplete_packets: if v.incomplete is Some {
                        final(self).incomplete().len() as usize
                    } else {
                        old(self).stats.incomplete_packets
                    },
                    ..old(self).stats
                })
            }),
            final(self).config == old(self).config,
            scan_spec(data@, 0, old(self).config.max_packet_size).incomplete is Some ==> final(self).stats.incomplete_packets == final(self).incomplete().len(),
            final(self).last_cleanup == old(self).last_cleanup,
    {
        let max = self.config.max_packet_size;
        let ghost total = scan_spec(data@, 0, max);
        let mut packets: Vec<&'a [u8]> = Vec::new();
        let mut i: usize = 0;
        let mut found: usize = 0;
        let mut errors: usize = 0;
        let mut done = false;
        let ghost mut gfound: Seq<(int, int, PacketType)> = Seq::empty();
        let last = data.len() - 4;
        while !done && i <= last
            invariant
                last == data@.len() - 4,
                max == self.config.max_packet_size,
                self.config == old(self).config,
                self.last_cleanup == old(self).last_cleanup,
                self.packet_cache == old(self).packet_cache,
                total == scan_spec(data@, 0, max),
                i <= data@.len(),
                found == gfound.len(),
                found <= i,
                errors <= i,
                slices_of(packets@, data@, gfound),
                !done ==> ({
                    let rest = scan_spec(data@, i as int, max);
                    &&& total.packets == gfound + rest.packets
                    &&& total.errors == errors + rest.errors
                    &&& total.incomplete == rest.incomplete
                    &&& self.incomplete_packets == old(self).incomplete_packets
                    &&& self.stats == old(self).stats
                }),
                done && total.incomplete is Some ==> self.stats.incomplete_packets == self.incomplete().len(),
                done ==> ({
                    &&& total.packets == gfound
                    &&& total.errors == errors
                    &&& self.incomplete() == incomplete_after(old(self).incomplete(), data@, total, self.config.max_incomplete_packets)
                    &&& self.stats == (SIMDParserStats {
                        incomplete_packets: if total.incomplete is Some {
                            self.incomplete().len() as usize
                        } else {
                            old(self).stats.incomplete_packets
                        },
                        ..old(self).stats
                    })
                }),
            decreases data@.len() - i + (if done { 0int } else { 1int }),
        {
            let ghost rest = scan_spec(data@, i as int, max);
            proof {
                lemma_first_toon(data@, i as int);
            }
            if data[i] == 84 && data[i + 1] == 79 && data[i + 2] == 79 && data[i + 3] == 78 {
                assert(data@.subrange(i as int, i + 4) =~= toon_magic());
                assert(first_toon(data@, i as int) == i);
                let tail = vstd::slice::slice_subrange(data, i, data.len());
                assert(tail@ =~= data@.skip(i as int));
                match parse_toon_packet_header(tail, max) {
                    Ok(info) => {
                        if info.total_length <= data.len() - i {
                            let end = i + info.total_length;
                            let ghost item = (i as int, info.total_length as int, info.packet_type);
                            let ghost rest2 = scan_spec(data@, end as int, max);
                            assert(rest.packets == seq![item] + rest2.packets);
                            packets.push(vstd::slice::slice_subrange(data, i, end));
                            proof {
                                assert(gfound.push(item) + rest2.packets =~= gfound + rest.packets);
                                gfound = gfound.push(item);
                            }
                            i = end;
                            found = found + 1;
                        } else {
                            self.track_incomplete_packet(IncompletePacket {
                                start_offset: i,
                                expected_length: info.total_length,
                                received_length: data.len() - i,
                                timestamp: instant_now(),
                            });
                            proof {
                                assert(gfound + rest.packets =~= gfound);
                            }
                            done = true;
                        }
                    },
                    Err(_) => {
                        errors = errors + 1;
                        i = i + 4;
                    },
                }
            } else {
                proof {
                    if toon_at(data@, i as int) {
                        assert(data@.subrange(i as int, i + 4)[0] == data@[i as int]);
                        assert(data@.subrange(i as int, i + 4)[1] == data@[i + 1]);
                        assert(data@.subrange(i as int, i + 4)[2] == data@[i + 2]);
                        assert(data@.subrange(i as int, i + 4)[3] == data@[i + 3]);
                    }
                    assert(first_toon(data@, i as int) == first_toon(data@, i + 1));
                }
                i = i + 1;
            }
        }
        proof {
            if !done {
                assert(first_toon(data@, i as int) == data@.len());
                let rest = scan_spec(data@, i as int, max);
                assert(gfound + rest.packets =~= gfound);
            }
        }
        self.stats.packets_found = self.stats.packets_found.wrapping_add(found as u64);
        self.stats.parse_errors = self.stats.parse_errors.wrapping_add(errors as u64);
        packets
    }

    /// Keeps the average parse time: the first time as it is, then nine
    /// tenths of the average and one tenth of the new time.
    fn update_parse_stats(&mut self, parse_time_ns: u64)
        ensures
            final(self).stats == (SIMDParserStats {
                avg_parse_time_ns: (if old(self).stats.avg_parse_time_ns == 0 {
                    parse_time_ns as int
                } else {
                    (old(self).stats.avg_parse_time_ns * 9 + parse_time_ns) / 10
                }) as u64,
                ..old(self).stats
            }),
            final(self).packet_cache == old(self).packet_cache,
            final(self).incomplete_packets == old(self).incomplete_packets,
            final(self).config == old(self).config,
            final(self).last_cleanup == old(self).last_cleanup,
    {
        let current = self.stats.avg_parse_time_ns;
        let new_avg = if current == 0 {
            parse_time_ns
        } else {
            let wide: u128 = (current as u128) * 9 + parse_time_ns as u128;
            (wide / 10) as u64
        };
        self.stats.avg_parse_time_ns = new_avg;
    }

    /// What `cleanup_with_ages` does, from this parser to `fin`, given the
    /// age in seconds of each cached boundary and each cut-off packet.
    pub open spec fn cleaned_with(&self, fin: Self, cache_ages: Seq<u64>, incomplete_ages: Seq<u64>) -> bool {
        &&& cache_ages.len() == self.cache().len()
        &&& incomplete_ages.len() == self.incomplete().len()
        &&& fin.cache() == young(self.cache(), cache_ages, 5, self.cache().len())
        &&& fin.incomplete() == young(self.incomplete(), incomplete_ages, 10, self.incomplete().len())
        &&& fin.figures() == (SIMDParserStats {
            cleanup_operations: self.figures().cleanup_operations.wrapping_add(1),
            incomplete_packets: fin.incomplete().len() as usize,
            ..self.figures()
        })
        &&& fin.settings() == self.settings()
    }

    /// What a selection of the cached boundaries does (see
    /// `select_cached_boundaries`), from this parser to `fin`, returning
    /// `r`, given the age in seconds of each cached boundary.
    pub open spec fn selected_with(
        &self,
        fin: Self,
        r: Seq<PacketBoundary>,
        data_offset: usize,
        data_length: usize,
        ages: Seq<u64>,
    ) -> bool {
        let sel = cached_in_range(self.cache(), ages, data_offset as int, data_offset + data_length, self.cache().len());
        &&& ages.len() == self.cache().len()
        &&& r.map_values(|b: PacketBoundary| boundary_view(b)) == sel
        &&& fin.figures() == (if sel.len() > 0 {
            SIMDParserStats { cache_hits: self.figures().cache_hits.wrapping_add(sel.len() as u64), ..self.figures() }
        } else {
            SIMDParserStats { cache_misses: self.figures().cache_misses.wrapping_add(1), ..self.figures() }
        })
    }

    /// Drops the cached boundaries five seconds old or older and the cut-off
    /// packets ten seconds old or older, given the age in seconds of each.
    pub fn cleanup_with_ages(&mut self, cache_ages: &[u64], incomplete_ages: &[u64])
        requires
            cache_ages@.len() == old(self).cache().len(),
            incomplete_ages@.len() == old(self).incomplete().len(),
        ensures
            final(self).cache() == young(old(self).cache(), cache_ages@, 5, old(self).cache().len()),
            final(self).incomplete() == young(old(self).incomplete(), incomplete_ages@, 10, old(self).incomplete().len()),
            final(self).figures() == (SIMDParserStats {
                cleanup_operations: old(self).figures().cleanup_operations.wrapping_add(1),
                incomplete_packets: final(self).incomplete().len() as usize,
                ..old(self).figures()
            }),
            final(self).figures().incomplete_packets == final(self).incomplete().len(),
            final(self).settings() == old(self).settings(),
    {
        let mut kept: Vec<PacketBoundary> = Vec::new();
        let mut i: usize = 0;
        while i < self.packet_cache.len()
            invariant
                i <= self.packet_cache@.len(),
                self.packet_cache == old(self).packet_cache,
                cache_ages@.len() == self.packet_cache@.len(),
                kept@.map_values(|b: PacketBoundary| boundary_view(b)) == young(old(self).cache(), cache_ages@, 5, i as nat),
            decreases self.packet_cache@.len() - i,
        {
            let ghost before = kept@;
            if cache_ages[i] < 5 {
                kept.push(self.packet_cache[i]);
                assert(kept@.map_values(|b: PacketBoundary| boundary_view(b)) =~= before.map_values(|b: PacketBoundary| boundary_view(b)).push(boundary_view(self.packet_cache@[i as int])));
            }
            i = i + 1;
        }
        let mut kept_incomplete: Vec<IncompletePacket> = Vec::new();
        let mut j: usize = 0;
        while j < self.incomplete_packets.len()
            invariant
                j <= self.incomplete_packets@.len(),
                self.incomplete_packets == old(self).incomplete_packets,
                incomplete_ages@.len() == self.incomplete_packets@.len(),
                kept_incomplete@.map_values(|p: IncompletePacket| incomplete_view(p)) == young(old(self).incomplete(), incomplete_ages@, 10, j as nat),
            decreases self.incomplete_packets@.len() - j,
        {
            let ghost before = kept_incomplete@;
            if incomplete_ages[j] < 10 {
                kept_incomplete.push(self.incomplete_packets[j]);
                assert(kept_incomplete@.map_values(|p: IncompletePacket| incomplete_view(p)) =~= before.map_values(|p: IncompletePacket| incomplete_view(p)).push(incomplete_view(self.incomplete_packets@[j as int])));
            }
            j = j + 1;
        }
        self.packet_cache = kept;
        self.incomplete_packets = kept_incomplete;
        self.stats.cleanup_operations = self.stats.cleanup_operations.wrapping_add(1);
        self.stats.incomplete_packets = self.incomplete_packets.len();
    }

    /// The age in seconds of each cached boundary and cut-off packet.
    fn ages(&self, now: &Instant) -> (r: (Vec<u64>, Vec<u64>))
        ensures
            r.0@.len() == self.cache().len(),
            r.1@.len() == self.incomplete().len(),
    {
        let mut cache_ages: Vec<u64> = Vec::new();
        let mut i: usize = 0;
        while i < self.packet_cache.len()
            invariant
                i <= self.packet_cache@.len(),
                cache_ages@.len() == i,
            decreases self.packet_cache@.len() - i,
        {
            cache_ages.push(duration_secs(&duration_since(now, &self.packet_cache[i].timestamp)));
            i = i + 1;
        }
        let mut incomplete_ages: Vec<u64> = Vec::new();
        let mut j: usize = 0;
        while j < self.incomplete_packets.len()
            invariant
                j <= self.incomplete_packets@.len(),
                incomplete_ages@.len() == j,
            decreases self.incomplete_packets@.len() - j,
        {
            incomplete_ages.push(duration_secs(&duration_since(now, &self.incomplete_packets[j].timestamp)));
            j = j + 1;
        }
        (cache_ages, incomplete_ages)
    }

    /// Drops what is stale now.
    fn cleanup_stale_data(&mut self, now: &Instant)
        ensures
            final(self).settings() == old(self).settings(),
            final(self).figures() == (SIMDParserStats {
                cleanup_operations: old(self).figures().cleanup_operations.wrapping_add(1),
                incomplete_packets: final(self).incomplete().len() as usize,
                ..old(self).figures()
            }),
            final(self).incomplete().len() <= old(self).incomplete().len(),
            final(self).figures().incomplete_packets == final(self).incomplete().len(),
            exists|ca: Seq<u64>, ia: Seq<u64>| #[trigger] old(self).cleaned_with(*final(self), ca, ia),
    {
        let (cache_ages, incomplete_ages) = self.ages(now);
        self.cleanup_with_ages(cache_ages.as_slice(), incomplete_ages.as_slice());
        assert(old(self).cleaned_with(*self, cache_ages@, incomplete_ages@));
        proof {
            lemma_young_len(old(self).incomplete(), incomplete_ages@, 10, old(self).incomplete().len());
        }
    }

    /// Cleans up where the clean-up interval has passed since the last one.
    fn maybe_cleanup(&mut self)
        ensures
            final(self).settings() == old(self).settings(),
            final(self).figures() == old(self).figures() || final(self).figures() == (SIMDParserStats {
                cleanup_operations: old(self).figures().cleanup_operations.wrapping_add(1),
                incomplete_packets: final(self).incomplete().len() as usize,
                ..old(self).figures()
            }),
            final(self).incomplete().len() <= old(self).incomplete().len(),
            final(self).figures() != old(self).figures() ==> final(self).figures().incomplete_packets
                == final(self).incomplete().len(),
            (final(self).cache() == old(self).cache() && final(self).incomplete() == old(self).incomplete()
                && final(self).figures() == old(self).figures())
                || exists|ca: Seq<u64>, ia: Seq<u64>| #[trigger] old(self).cleaned_with(*final(self), ca, ia),
    {
        let now = instant_now();
        let since = duration_secs(&duration_since(&now, &self.last_cleanup));
        if since >= self.config.cleanup_interval_secs {
            self.cleanup_stale_data(&now);
            let ghost mid = *self;
            self.last_cleanup = now;
            proof {
                let (ca, ia) = choose|ca: Seq<u64>, ia: Seq<u64>| #[trigger] old(self).cleaned_with(mid, ca, ia);
                assert(old(self).cleaned_with(*self, ca, ia));
            }
        }
    }

    /// Finds the complete packets of `data`, in order: the slices of the
    /// search from the start (see `scan_spec`), the fast search or, where it
    /// is off, a byte-by-byte one that needs at least four bytes. Stale
    /// cached and cut-off packets may be dropped first, where the clean-up
    /// interval has passed; the cache is then emptied and, with the fast
    /// search and caching on, holds the boundaries found (the latest as many
    /// as fit). A packet cut off at the end is noted as the latest cut-off
    /// one. The counters count the search, its bytes, the packets, the
    /// refused headers and, for the fast search, the magics met.
    pub fn find_toon_packets<'a>(&mut self, data: &'a [u8]) -> (r: Vec<&'a [u8]>)
        requires
            !old(self).settings().enable_simd ==> data@.len() >= 4,
            old(self).settings().enable_simd && old(self).settings().enable_boundary_cache
                ==> old(self).settings().max_cached_packets > 0
                || scan_spec(data@, 0, old(self).settings().max_packet_size).packets.len() == 0,
        ensures
            ({
                let c = old(self).settings();
                let v = scan_spec(data@, 0, c.max_packet_size);
                let o = old(self).figures();
                let f = final(self).figures();
                &&& slices_of(r@, data@, v.packets)
                &&& final(self).settings() == c
                &&& final(self).cache() == (if c.enable_simd && c.enable_boundary_cache {
                    cache_push_all(Seq::empty(), found_places(v.packets), c.max_cached_packets)
                } else {
                    Seq::empty()
                })
                &&& v.incomplete matches Some((p, t)) ==> final(self).incomplete().len() > 0
                    && final(self).incomplete().last() == (p as usize, t as usize, (data@.len() - p) as usize)
                &&& v.incomplete is None ==> final(self).incomplete().len() <= old(self).incomplete().len()
                &&& f.total_parses == o.total_parses.wrapping_add(1)
                &&& f.bytes_processed == o.bytes_processed.wrapping_add(data@.len() as u64)
                &&& f.packets_found == o.packets_found.wrapping_add(v.packets.len() as u64)
                &&& f.parse_errors == o.parse_errors.wrapping_add(v.errors as u64)
                &&& f.simd_operations == (if c.enable_simd {
                    o.simd_operations.wrapping_add(v.hits as u64)
                } else {
                    o.simd_operations
                })
                &&& f.cache_hits == o.cache_hits
                &&& f.cache_misses == o.cache_misses
                &&& f.incomplete_packets == final(self).incomplete().len() || (v.incomplete is None && f.incomplete_packets == o.incomplete_packets)
                &&& f.cleanup_operations == o.cleanup_operations || f.cleanup_operations == o.cleanup_operations.wrapping_add(1)
            }),
    {
        let start = instant_now();
        self.stats.total_parses = self.stats.total_parses.wrapping_add(1);
        self.stats.bytes_processed = self.stats.bytes_processed.wrapping_add(data.len() as u64);
        self.maybe_cleanup();
        self.packet_cache.clear();
        assert(self.cache() =~= Seq::empty());
        let packets = if self.config.enable_simd {
            self.find_packets_simd(data)
        } else {
            self.find_packets_linear(data)
        };
        let elapsed = duration_since(&instant_now(), &start);
        let nanos = duration_nanos(&elapsed);
        self.update_parse_stats(nanos as u64);
        packets
    }

    /// The cached boundaries that lie inside `[data_offset, data_offset +
    /// data_length)` and are under a second old, given the age in seconds of
    /// each; none where caching is off. A hit is counted for each one
    /// returned, or a miss where none is.
    pub fn select_cached_boundaries(&mut self, data_offset: usize, data_length: usize, ages: &[u64]) -> (r: Vec<PacketBoundary>)
        requires
            data_offset + data_length <= usize::MAX,
            ages@.len() == old(self).cache().len(),
        ensures
            final(self).cache() == old(self).cache(),
            final(self).incomplete() == old(self).incomplete(),
            final(self).settings() == old(self).settings(),
            !old(self).settings().enable_boundary_cache ==> r@.len() == 0 && final(self).figures() == old(self).figures(),
            old(self).settings().enable_boundary_cache ==> ({
                let sel = cached_in_range(old(self).cache(), ages@, data_offset as int, data_offset + data_length, old(self).cache().len());
                &&& r@.map_values(|b: PacketBoundary| boundary_view(b)) == sel
                &&& final(self).figures() == (if sel.len() > 0 {
                    SIMDParserStats { cache_hits: old(self).figures().cache_hits.wrapping_add(sel.len() as u64), ..old(self).figures() }
                } else {
                    SIMDParserStats { cache_misses: old(self).figures().cache_misses.wrapping_add(1), ..old(self).figures() }
                })
            }),
    {
        let mut out: Vec<PacketBoundary> = Vec::new();
        if !self.config.enable_boundary_cache {
            return out;
        }
        let data_end = data_offset + data_length;
        let mut i: usize = 0;
        while i < self.packet_cache.len()
            invariant
                i <= self.packet_cache@.len(),
                ages@.len() == self.packet_cache@.len(),
                data_end == data_offset + data_length,
                out@.len() <= i,
                out@.map_values(|b: PacketBoundary| boundary_view(b)) == cached_in_range(
                    self.cache(), ages@, data_offset as int, data_end as int, i as nat),
            decreases self.packet_cache@.len() - i,
        {
            let b = self.packet_cache[i];
            let ghost before = out@;
            if b.start >= data_offset && b.start <= data_end && b.length <= data_end - b.start && ages[i] < 1 {
                out.push(b);
                assert(out@.map_values(|x: PacketBoundary| boundary_view(x)) =~= before.map_values(|x: PacketBoundary| boundary_view(x)).push(boundary_view(b)));
            }
            i = i + 1;
        }
        assert(out@.map_values(|b: PacketBoundary| boundary_view(b)).len() == out@.len());
        if out.len() > 0 {
            self.stats.cache_hits = self.stats.cache_hits.wrapping_add(out.len() as u64);
        } else {
            self.stats.cache_misses = self.stats.cache_misses.wrapping_add(1);
        }
        out
    }

    /// The cached boundaries inside the given range that are under a second
    /// old now (see `select_cached_boundaries`): the selection for the ages
    /// the clock gives, which are not named.
    pub fn check_cached_boundaries(&mut self, data_offset: usize, data_length: usize) -> (r: Vec<PacketBoundary>)
        requires
            data_offset + data_length <= usize::MAX,
        ensures
            final(self).cache() == old(self).cache(),
            final(self).incomplete() == old(self).incomplete(),
            final(self).settings() == old(self).settings(),
            !old(self).settings().enable_boundary_cache ==> r@.len() == 0 && final(self).figures() == old(self).figures(),
            r@.len() <= old(self).cache().len(),
            forall|k: int| 0 <= k < r@.len() ==> #[trigger] r@[k].start >= data_offset && r@[k].start + r@[k].length <= data_offset + data_length,
            old(self).settings().enable_boundary_cache ==> exists|ages: Seq<u64>| #[trigger] old(self).selected_with(
                *final(self),
                r@,
                data_offset,
                data_length,
                ages,
            ),
    {
        let now = instant_now();
        let (ages, _incomplete_ages) = self.ages(&now);
        let r = self.select_cached_boundaries(data_offset, data_length, ages.as_slice());
        proof {
            if self.config.enable_boundary_cache {
                assert(old(self).selected_with(*self, r@, data_offset, data_length, ages@));
                lemma_cached_in_range(old(self).cache(), ages@, data_offset as int, data_offset + data_length, old(self).cache().len());
                let sel = cached_in_range(old(self).cache(), ages@, data_offset as int, data_offset + data_length, old(self).cache().len());
                assert(r@.map_values(|b: PacketBoundary| boundary_view(b)) == sel);
                assert forall|k: int| 0 <= k < r@.len() implies #[trigger] r@[k].start >= data_offset && r@[k].start + r@[k].length <= data_offset + data_length by {
                    assert(r@.map_values(|b: PacketBoundary| boundary_view(b))[k] == boundary_view(r@[k]));
                    assert(sel.len() == r@.len());
                    assert(sel[k] == boundary_view(r@[k]));
                    assert(sel[k].0 >= data_offset && sel[k].0 + sel[k].1 <= data_offset + data_length);
                }
            }
        }
        r
    }

    /// The cut-off packets known, oldest first.
    pub fn get_incomplete_packets(&self) -> (r: Vec<IncompletePacket>)
        ensures
            r@.map_values(|p: IncompletePacket| incomplete_view(p)) == self.incomplete(),
    {
        let mut out: Vec<IncompletePacket> = Vec::new();
        let mut i: usize = 0;
        while i < self.incomplete_packets.len()
            invariant
                i <= self.incomplete_packets@.len(),
                out@.map_values(|p: IncompletePacket| incomplete_view(p)) == self.incomplete().take(i as int),
            decreases self.incomplete_packets@.len() - i,
        {
            let ghost before = out@;
            let p = self.incomplete_packets[i];
            out.push(p);
            assert(out@ == before.push(p));
            assert(incomplete_view(p) == self.incomplete()[i as int]);
            assert(out@.map_values(|p: IncompletePacket| incomplete_view(p)) =~= before.map_values(|p: IncompletePacket| incomplete_view(p)).push(incomplete_view(p)));
            assert(self.incomplete().take(i + 1) =~= self.incomplete().take(i as int).push(self.incomplete()[i as int]));
            i = i + 1;
        }
        assert(self.incomplete().take(i as int) =~= self.incomplete());
        out
    }

    /// Forgets the cut-off packets.
    pub fn clear_incomplete_packets(&mut self)
        ensures
            final(self).incomplete().len() == 0,
            final(self).figures() == (SIMDParserStats { incomplete_packets: 0, ..old(self).figures() }),
            final(self).cache() == old(self).cache(),
            final(self).settings() == old(self).settings(),
    {
        self.incomplete_packets.clear();
        assert(self.incomplete() =~= Seq::empty());
        self.stats.incomplete_packets = 0;
    }

    /// The counters.
    pub fn get_stats(&self) -> (s: SIMDParserStatsSnapshot)
        ensures
            s == self.figures(),
    {
        self.stats
    }
}

/// Keeping some elements never makes a sequence longer.
proof fn lemma_young_len<T>(s: Seq<T>, ages: Seq<u64>, limit: u64, n: nat)
    ensures
        young(s, ages, limit, n).len() <= n,
    decreases n,
{
    if n > 0 {
        lemma_young_len(s, ages, limit, (n - 1) as nat);
    }
}
/// What the range selection keeps lies in the range.
proof fn lemma_cached_in_range(c: Seq<(usize, usize, PacketType)>, ages: Seq<u64>, offset: int, end: int, n: nat)
    ensures
        cached_in_range(c, ages, offset, end, n).len() <= n,
        forall|k: int| 0 <= k < cached_in_range(c, ages, offset, end, n).len() ==> #[trigger] cached_in_range(c, ages, offset, end, n)[k].0 >= offset
            && cached_in_range(c, ages, offset, end, n)[k].0 + cached_in_range(c, ages, offset, end, n)[k].1 <= end,
    decreases n,
{
    if n > 0 {
        lemma_cached_in_range(c, ages, offset, end, (n - 1) as nat);
    }
}

impl Default for SIMDPacketParser {
    fn default() -> (p: Self)
        ensures
            p.settings() == SIMDParserConfig::default_spec(),
            p.figures() == SIMDParserStats::zero_spec(),
            p.cache().len() == 0,
            p.incomplete().len() == 0,
    {
        Self::new()
    }
}

} // verus!
