//! A buffer that gathers the bytes of a connection across reads and hands
//! out whole commands: newline-ended text lines, binary commands whose
//! length their header gives, six-byte protocol handshakes, or a number of
//! bytes announced beforehand.

use vstd::prelude::*;
use vstd::string::StringExecFns;
use crate::protocol::text::{append_decimal, decimal_chars};
use crate::protocol::binary::{read_u32_at, u32_at};
use crate::protocol::wire::{find_byte, find_byte_from, lemma_find_byte};

verus! {

/// Whether the data starts with the four bytes `TOON`.
pub open spec fn starts_toon(d: Seq<u8>) -> bool {
    d.len() >= 4 && d[0] == 84u8 && d[1] == 79u8 && d[2] == 79u8 && d[3] == 78u8
}

/// Whether the data starts with the four bytes `CRAB`.
pub open spec fn starts_crab(d: Seq<u8>) -> bool {
    d.len() >= 4 && d[0] == 67u8 && d[1] == 82u8 && d[2] == 65u8 && d[3] == 66u8
}

/// Whether the data is exactly a six-byte handshake of the TOON or the
/// protobuf protocol.
pub open spec fn is_handshake(d: Seq<u8>) -> bool {
    d.len() == 6 && (starts_toon(d) || starts_crab(d))
}

/// The last position of the binary command at the start of the data, where
/// it is complete: PING and STATS are one byte; GET and DEL a key after a
/// four-byte length; EXPIRE that and eight bytes of time to live; PUT a key
/// and a value, each after its length, then a flag and, where the flag is 1,
/// eight bytes of time to live.
pub open spec fn binary_command_end(d: Seq<u8>) -> Option<int> {
    if d.len() == 0 {
        None
    } else if d[0] == 1u8 || d[0] == 6u8 {
        Some(0)
    } else if d[0] == 2u8 {
        if d.len() < 5 {
            None
        } else {
            let c1 = 5 + u32_at(d, 1);
            if d.len() < c1 + 4 {
                None
            } else {
                let c2 = c1 + 4 + u32_at(d, c1);
                if d.len() < c2 + 1 {
                    None
                } else {
                    let c3 = if d[c2] == 1u8 {
                        c2 + 9
                    } else {
                        c2 + 1
                    };
                    if d.len() >= c3 {
                        Some(c3 - 1)
                    } else {
                        None
                    }
                }
            }
        }
    } else if d[0] == 3u8 || d[0] == 4u8 || d[0] == 5u8 {
        if d.len() < 5 {
            None
        } else {
            let c = if d[0] == 5u8 {
                5 + u32_at(d, 1) + 8
            } else {
                5 + u32_at(d, 1)
            };
            if d.len() >= c {
                Some(c - 1)
            } else {
                None
            }
        }
    } else {
        None
    }
}

/// The positions of the newlines at or after `from`, in order.
pub open spec fn newline_positions(d: Seq<u8>, from: int) -> Seq<int>
    decreases d.len() - from,
{
    if from < 0 || from >= d.len() {
        Seq::empty()
    } else {
        let n = find_byte(d, 10u8, from);
        proof {
            lemma_find_byte(d, 10u8, from);
        }
        if n >= d.len() {
            Seq::empty()
        } else {
            seq![n] + newline_positions(d, n + 1)
        }
    }
}

/// Where the search for newlines starts: after the last boundary known.
pub open spec fn scan_start(bs: Seq<usize>) -> int {
    if bs.len() > 0 {
        bs.last() + 1
    } else {
        0
    }
}

/// Whether the boundaries are found by looking for newlines: the data is
/// no handshake and starts with no complete binary command.
pub open spec fn scans_newlines(d: Seq<u8>) -> bool {
    !is_handshake(d) && binary_command_end(d) is None
}

/// The boundaries once the data `d` is there: the end of a handshake or of
/// the binary command it starts with is added, else the newlines after the
/// last boundary known.
pub open spec fn boundaries_after(d: Seq<u8>, bs: Seq<usize>) -> Seq<usize> {
    if is_handshake(d) {
        bs.push(5)
    } else if binary_command_end(d) is Some {
        bs.push(binary_command_end(d)->0 as usize)
    } else {
        bs + newline_positions(d, scan_start(bs)).map_values(|n: int| n as usize)
    }
}

/// The inputs on which looking for boundaries stays in range: the position
/// after the last boundary can be computed, and where newlines are looked
/// for it lies inside the data.
pub open spec fn scan_ok(d: Seq<u8>, bs: Seq<usize>) -> bool {
    &&& bs.len() > 0 ==> bs.last() < usize::MAX
    &&& scans_newlines(d) ==> scan_start(bs) <= d.len()
}

/// Whether the data starts as a binary packet or command does.
pub open spec fn starts_binary(d: Seq<u8>) -> bool {
    starts_toon(d) || starts_crab(d) || (d.len() > 0 && 1u8 <= d[0] <= 6u8)
}

/// A text line without its line end: a last newline, then a carriage return
/// before it, are taken off.
pub open spec fn strip_line_end(b: Seq<u8>) -> Seq<u8> {
    let a = if b.len() > 0 && b.last() == 10u8 {
        b.drop_last()
    } else {
        b
    };
    if a.len() > 0 && a.last() == 13u8 {
        a.drop_last()
    } else {
        a
    }
}

/// The command up to boundary `b`: the bytes through `b`, without the line
/// end for text.
pub open spec fn command_through(d: Seq<u8>, b: int) -> Seq<u8> {
    if starts_binary(d) {
        d.take(b + 1)
    } else {
        strip_line_end(d.take(b + 1))
    }
}

/// The inputs on which taking out the first command stays in range: its
/// boundary lies inside the data and every later boundary lies after it.
pub open spec fn extract_ok(d: Seq<u8>, bs: Seq<usize>) -> bool {
    bs.len() > 0 ==> bs[0] < d.len() && forall|i: int| 1 <= i < bs.len() ==> #[trigger] bs[i] > bs[0]
}

/// The message of a refused append.
pub open spec fn too_large_text(size: nat, max: nat) -> Seq<char> {
    "Command too large: "@ + decimal_chars(size) + " bytes (max: "@ + decimal_chars(max) + ")"@
}

/// The message of a refused append, for `size` bytes over `max`.
pub fn too_large_message(size: usize, max: usize) -> (m: String)
    ensures
        m@ == too_large_text(size as nat, max as nat),
{
    let mut m = String::from_str("Command too large: ");
    append_decimal(&mut m, size);
    m.append(" bytes (max: ");
    append_decimal(&mut m, max);
    m.append(")");
    m
}

/// The last position of the binary command at the start of the data, where
/// it is complete.
fn binary_command_length(data: &[u8]) -> (r: Option<usize>)
    ensures
        match (r, binary_command_end(data@)) {
            (Some(e), Some(se)) => e == se,
            (None, None) => true,
            _ => false,
        },
{
    let n = data.len() as u64;
    if data.len() == 0 {
        return None;
    }
    let t = data[0];
    if t == 1 || t == 6 {
        Some(0)
    } else if t == 2 {
        if data.len() < 5 {
            return None;
        }
        let c1 = 5 + read_u32_at(data, 1) as u64;
        if n < c1 + 4 {
            return None;
        }
        let c2 = c1 + 4 + read_u32_at(data, c1 as usize) as u64;
        if n < c2 + 1 {
            return None;
        }
        let c3 = if data[c2 as usize] == 1 {
            c2 + 9
        } else {
            c2 + 1
        };
        if n >= c3 {
            Some((c3 - 1) as usize)
        } else {
            None
        }
    } else if t == 3 || t == 4 || t == 5 {
        if data.len() < 5 {
            return None;
        }
        let c = if t == 5 {
            5 + read_u32_at(data, 1) as u64 + 8
        } else {
            5 + read_u32_at(data, 1) as u64
        };
        if n >= c {
            Some((c - 1) as usize)
        } else {
            None
        }
    } else {
        None
    }
}

/// Gathers the bytes of a connection and hands out whole commands.
pub struct StreamingBuffer {
    data: Vec<u8>,
    max_size: usize,
    expected_size: Option<usize>,
    command_boundaries: Vec<usize>,
}

impl StreamingBuffer {
    /// The bytes gathered and not yet handed out.
    pub closed spec fn bytes(&self) -> Seq<u8> {
        self.data@
    }

    /// The most bytes it holds.
    pub closed spec fn limit(&self) -> usize {
        self.max_size
    }

    /// The number of bytes announced, if any.
    pub closed spec fn expected(&self) -> Option<usize> {
        self.expected_size
    }

    /// The last positions of the complete commands known, oldest first.
    pub closed spec fn boundaries(&self) -> Seq<usize> {
        self.command_boundaries@
    }

    /// An empty buffer that holds at most `max_size` bytes.
    pub fn new(max_size: usize) -> (b: Self)
        ensures
            b.bytes().len() == 0,
            b.limit() == max_size,
            b.expected() is None,
            b.boundaries().len() == 0,
    {
        StreamingBuffer {
            data: Vec::with_capacity(8192),
            max_size,
            expected_size: None,
            command_boundaries: Vec::new(),
        }
    }

    /// Adds bytes read. Refused, with a message that gives both sizes, where
    /// the buffer would then hold more than its limit; else the bytes are
    /// added and the boundaries of the commands now complete are found.
    pub fn append(&mut self, new_data: &[u8]) -> (res: Result<(), String>)
        requires
            old(self).bytes().len() + new_data@.len() <= usize::MAX,
            old(self).bytes().len() + new_data@.len() <= old(self).limit() ==> scan_ok(
                old(self).bytes() + new_data@,
                old(self).boundaries(),
            ),
        ensures
            final(self).limit() == old(self).limit(),
            final(self).expected() == old(self).expected(),
            res is Err <==> old(self).bytes().len() + new_data@.len() > old(self).limit(),
            res matches Err(m) ==> m@ == too_large_text(
                (old(self).bytes().len() + new_data@.len()) as nat,
                old(self).limit() as nat,
            ) && final(self).bytes() == old(self).bytes() && final(self).boundaries() == old(self).boundaries(),
            res is Ok ==> final(self).bytes() == old(self).bytes() + new_data@ && final(self).boundaries() == boundaries_after(final(self).bytes(), old(self).boundaries()),
    {
        if self.data.len() + new_data.len() > self.max_size {
            return Err(too_large_message(self.data.len() + new_data.len(), self.max_size));
        }
        let mut i: usize = 0;
        while i < new_data.len()
            invariant
                i <= new_data@.len(),
                self.data@ == old(self).bytes() + new_data@.take(i as int),
                self.max_size == old(self).limit(),
                self.expected_size == old(self).expected(),
                self.command_boundaries@ == old(self).boundaries(),
            decreases new_data@.len() - i,
        {
            self.data.push(new_data[i]);
            i = i + 1;
            assert(self.data@ =~= old(self).bytes() + new_data@.take(i as int));
        }
        assert(new_data@.take(i as int) =~= new_data@);
        self.update_command_boundaries();
        Ok(())
    }

    fn update_command_boundaries(&mut self)
        requires
            scan_ok(old(self).data@, old(self).command_boundaries@),
        ensures
            final(self).data == old(self).data,
            final(self).max_size == old(self).max_size,
            final(self).expected_size == old(self).expected_size,
            final(self).command_boundaries@ == boundaries_after(
                old(self).data@,
                old(self).command_boundaries@,
            ),
    {
        let len = self.command_boundaries.len();
        let start = if len > 0 {
            self.command_boundaries[len - 1] + 1
        } else {
            0
        };
        let d = self.data.as_slice();
        let toon = d.len() >= 4 && d[0] == 84 && d[1] == 79 && d[2] == 79 && d[3] == 78;
        let crab = d.len() >= 4 && d[0] == 67 && d[1] == 82 && d[2] == 65 && d[3] == 66;
        if d.len() == 6 && (toon || crab) {
            self.command_boundaries.push(5);
            return;
        }
        match binary_command_length(d) {
            Some(e) => {
                self.command_boundaries.push(e);
                return;
            },
            None => {},
        }
        let ghost bs = old(self).command_boundaries@;
        let mut s = start;
        while s < d.len()
            invariant
                d@ == old(self).data@,
                self.data == old(self).data,
                self.max_size == old(self).max_size,
                self.expected_size == old(self).expected_size,
                scan_start(bs) <= s <= d@.len(),
                self.command_boundaries@ + newline_positions(d@, s as int).map_values(
                    |n: int| n as usize,
                ) == bs + newline_positions(d@, scan_start(bs)).map_values(|n: int| n as usize),
            decreases d@.len() - s,
        {
            let n = find_byte_from(d, 10u8, s);
            let ghost before = self.command_boundaries@;
            if n >= d.len() {
                assert(newline_positions(d@, s as int) =~= Seq::<int>::empty());
                s = d.len();
            } else {
                self.command_boundaries.push(n);
                assert(newline_positions(d@, s as int) == seq![n as int] + newline_positions(
                    d@,
                    n + 1,
                ));
                assert(newline_positions(d@, s as int).map_values(|k: int| k as usize)
                    =~= seq![n] + newline_positions(d@, n + 1).map_values(|k: int| k as usize));
                assert(self.command_boundaries@ =~= before.push(n));
                assert(before + newline_positions(d@, s as int).map_values(|k: int| k as usize)
                    =~= self.command_boundaries@ + newline_positions(d@, n + 1).map_values(
                    |k: int| k as usize,
                ));
                s = n + 1;
            }
        }
        assert(newline_positions(d@, s as int) =~= Seq::<int>::empty());
        assert(self.command_boundaries@ + newline_positions(d@, s as int).map_values(
            |n: int| n as usize,
        ) =~= self.command_boundaries@);
    }

    /// Whether a complete command is there.
    pub fn has_complete_commands(&self) -> (b: bool)
        ensures
            b == (self.boundaries().len() > 0),
    {
        self.command_boundaries.len() > 0
    }

    /// Takes out the oldest complete command: the bytes through its
    /// boundary, without the line end for a text line; the later boundaries
    /// move down by as many bytes. None where no command is complete.
    pub fn extract_command(&mut self) -> (r: Option<Vec<u8>>)
        requires
            extract_ok(old(self).bytes(), old(self).boundaries()),
        ensures
            final(self).limit() == old(self).limit(),
            final(self).expected() == old(self).expected(),
            old(self).boundaries().len() == 0 ==> r is None && final(self).bytes() == old(self).bytes() && final(self).boundaries() == old(self).boundaries(),
            old(self).boundaries().len() > 0 ==> ({
                let b = old(self).boundaries()[0] as int;
                &&& r matches Some(v) && v@ == command_through(old(self).bytes(), b)
                &&& final(self).bytes() == old(self).bytes().skip(b + 1)
                &&& final(self).boundaries() == old(self).boundaries().skip(1).map_values(
                    |x: usize| (x - (b + 1)) as usize,
                )
            }),
    {
        if self.command_boundaries.len() == 0 {
            return None;
        }
        let boundary = self.command_boundaries.remove(0);
        let d = self.data.as_slice();
        let binary = (d.len() >= 4 && ((d[0] == 84 && d[1] == 79 && d[2] == 79 && d[3] == 78) || (
        d[0] == 67 && d[1] == 82 && d[2] == 65 && d[3] == 66))) || (d.len() > 0 && d[0] >= 1
            && d[0] <= 6);
        let mut command: Vec<u8> = Vec::new();
        let mut rest: Vec<u8> = Vec::new();
        let mut i: usize = 0;
        while i < d.len()
            invariant
                d@ == old(self).data@,
                boundary < d@.len(),
                i <= d@.len(),
                i <= boundary + 1 ==> command@ == d@.take(i as int) && rest@.len() == 0,
                i > boundary + 1 ==> command@ == d@.take(boundary + 1) && rest@ == d@.subrange(
                    boundary + 1,
                    i as int,
                ),
            decreases d@.len() - i,
        {
            if i <= boundary {
                command.push(d[i]);
            } else {
                rest.push(d[i]);
            }
            i = i + 1;
            assert(i <= boundary + 1 ==> command@ =~= d@.take(i as int));
            assert(i > boundary + 1 ==> rest@ =~= d@.subrange(boundary + 1, i as int));
        }
        assert(d@.subrange(boundary + 1, d@.len() as int) =~= d@.skip(boundary + 1));
        if !binary {
            if command.len() > 0 && command[command.len() - 1] == 10 {
                command.pop();
            }
            if command.len() > 0 && command[command.len() - 1] == 13 {
                command.pop();
            }
        }
        self.data = rest;
        let ghost bs = self.command_boundaries@;
        let mut k: usize = 0;
        while k < self.command_boundaries.len()
            invariant
                bs == old(self).command_boundaries@.skip(1),
                self.command_boundaries@.len() == bs.len(),
                boundary == old(self).command_boundaries@[0],
                forall|j: int| 0 <= j < bs.len() ==> #[trigger] bs[j] > boundary,
                k <= bs.len(),
                forall|j: int| 0 <= j < k ==> #[trigger] self.command_boundaries@[j] == (bs[j] - (boundary + 1)) as usize,
                forall|j: int| k <= j < bs.len() ==> #[trigger] self.command_boundaries@[j] == bs[j],
                self.data@ == old(self).data@.skip(boundary + 1),
                self.max_size == old(self).max_size,
                self.expected_size == old(self).expected_size,
            decreases bs.len() - k,
        {
            let x = self.command_boundaries[k];
            self.command_boundaries.set(k, x - (boundary + 1));
            k = k + 1;
        }
        assert(self.command_boundaries@ =~= old(self).command_boundaries@.skip(1).map_values(
            |x: usize| (x - (boundary + 1)) as usize,
        ));
        Some(command)
    }

    /// How many bytes are held.
    pub fn len(&self) -> (n: usize)
        ensures
            n == self.bytes().len(),
    {
        self.data.len()
    }

    /// Whether no byte is held.
    pub fn is_empty(&self) -> (b: bool)
        ensures
            b == (self.bytes().len() == 0),
    {
        self.data.len() == 0
    }

    /// Drops every byte, boundary and announced size.
    pub fn clear(&mut self)
        ensures
            final(self).bytes().len() == 0,
            final(self).boundaries().len() == 0,
            final(self).expected() is None,
            final(self).limit() == old(self).limit(),
    {
        self.data.clear();
        self.command_boundaries.clear();
        self.expected_size = None;
    }

    /// Announces how many bytes the next packet has.
    pub fn set_expected_size(&mut self, size: usize)
        ensures
            final(self).expected() == Some(size),
            final(self).bytes() == old(self).bytes(),
            final(self).boundaries() == old(self).boundaries(),
            final(self).limit() == old(self).limit(),
    {
        self.expected_size = Some(size);
    }

    /// Whether the announced bytes are all there; false where none are
    /// announced.
    pub fn has_expected_data(&self) -> (b: bool)
        ensures
            b == (self.expected() matches Some(e) && self.bytes().len() >= e),
    {
        match self.expected_size {
            Some(e) => self.data.len() >= e,
            None => false,
        }
    }

    /// Takes out the announced bytes where they are all there, and forgets
    /// the announcement; the boundaries are left as they are. None
    /// otherwise, with nothing changed.
    pub fn extract_expected(&mut self) -> (r: Option<Vec<u8>>)
        ensures
            final(self).limit() == old(self).limit(),
            final(self).boundaries() == old(self).boundaries(),
            match old(self).expected() {
                Some(e) if old(self).bytes().len() >= e => {
                    &&& r matches Some(v) && v@ == old(self).bytes().take(e as int)
                    &&& final(self).bytes() == old(self).bytes().skip(e as int)
                    &&& final(self).expected() is None
                },
                _ => r is None && final(self).bytes() == old(self).bytes() && final(self).expected()
                    == old(self).expected(),
            },
    {
        match self.expected_size {
            Some(e) => {
                if self.data.len() >= e {
                    let d = self.data.as_slice();
                    let head = vstd::slice::slice_to_vec(vstd::slice::slice_subrange(d, 0, e));
                    let tail = vstd::slice::slice_to_vec(vstd::slice::slice_subrange(d, e, d.len()));
                    proof {
                        assert(head@ =~= old(self).data@.take(e as int));
                        assert(tail@ =~= old(self).data@.skip(e as int));
                    }
                    self.data = tail;
                    self.expected_size = None;
                    Some(head)
                } else {
                    None
                }
            },
            None => None,
        }
    }

    /// How many more bytes it can take.
    pub fn remaining_capacity(&self) -> (n: usize)
        ensures
            n == (if self.limit() >= self.bytes().len() {
                self.limit() - self.bytes().len()
            } else {
                0
            }),
    {
        self.max_size.saturating_sub(self.data.len())
    }
}

} // verus!
