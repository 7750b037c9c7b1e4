//! In-memory endpoints: an uncompressed source, a fixed-size or growing
//! destination, and a status log.
use vstd::prelude::*;

use crate::ipc::{ErrorType, StatusMessage};
use crate::stream::{accepted, write_at, BlockTarget, ByteSource, StatusSink};

verus! {

/// Copies `src[from..from + n]` over `buf[start..start + n]`.
fn copy_into(buf: &mut Vec<u8>, start: usize, src: &Vec<u8>, from: usize, n: usize)
    requires
        start + n <= old(buf).len(),
        from + n <= src.len(),
    ensures
        final(buf)@ == old(buf)@.subrange(0, start as int) + src@.subrange(
            from as int,
            from + n,
        ) + old(buf)@.subrange(start + n, old(buf).len() as int),
{
    let mut i: usize = 0;
    while i < n
        invariant
            i <= n,
            start + n <= buf.len() == old(buf).len(),
            from + n <= src.len(),
            buf@ == old(buf)@.subrange(0, start as int) + src@.subrange(from as int, from + i)
                + old(buf)@.subrange(start + i, old(buf).len() as int),
        decreases n - i,
    {
        buf.set(start + i, src[from + i]);
        i += 1;
        assert(buf@ =~= old(buf)@.subrange(0, start as int) + src@.subrange(from as int, from + i)
            + old(buf)@.subrange(start + i, old(buf).len() as int));
    }
}

/// An uncompressed source held in memory.
pub struct MemSource {
    data: Vec<u8>,
    pos: usize,
}

impl MemSource {
    /// A source that yields `data`, from its start.
    pub fn new(data: Vec<u8>) -> (r: Self)
        ensures
            r.content() == data@,
            r.rest() == data@,
            r.consumed() == 0,
            r.passthrough(),
            r.faultless(),
    {
        let r = MemSource { data, pos: 0 };
        assert(r.data@.skip(0) =~= r.data@);
        r
    }
}

impl ByteSource for MemSource {
    closed spec fn rest(&self) -> Seq<u8> {
        if self.pos <= self.data.len() {
            self.data@.skip(self.pos as int)
        } else {
            Seq::empty()
        }
    }

    closed spec fn content(&self) -> Seq<u8> {
        self.data@
    }

    closed spec fn consumed(&self) -> u64 {
        self.pos as u64
    }

    closed spec fn passthrough(&self) -> bool {
        true
    }

    closed spec fn faultless(&self) -> bool {
        true
    }

    fn read(&mut self, buf: &mut Vec<u8>, start: usize) -> (r: Result<usize, ErrorType>) {
        let avail = if self.pos <= self.data.len() {
            self.data.len() - self.pos
        } else {
            0
        };
        let room = buf.len() - start;
        let n = if avail < room {
            avail
        } else {
            room
        };
        if n > 0 {
            copy_into(buf, start, &self.data, self.pos, n);
            assert(self.data@.subrange(self.pos as int, self.pos + n) =~= self.rest().subrange(
                0,
                n as int,
            ));
            self.pos = self.pos + n;
            assert(self.rest() =~= old(self).rest().skip(n as int));
        } else {
            assert(buf@ =~= old(buf)@.subrange(0, start as int) + old(self).rest().subrange(0, 0)
                + old(buf)@.subrange(start as int, old(buf).len() as int));
            assert(self.rest() =~= old(self).rest().skip(0));
        }
        Ok(n)
    }

    fn consumed_bytes(&self) -> (r: u64) {
        self.pos as u64
    }

    fn rewind(&mut self) -> (r: Result<(), ErrorType>) {
        self.pos = 0;
        assert(self.data@.skip(0) =~= self.data@);
        Ok(())
    }
}

/// A destination held in memory: a device of fixed size, or a file that grows.
pub struct MemTarget {
    data: Vec<u8>,
    pos: usize,
    fixed: bool,
    writes: Vec<usize>,
}

impl MemTarget {
    /// A device of `data.len()` bytes that holds `data`, cursor at its start.
    pub fn new(data: Vec<u8>) -> (r: Self)
        ensures
            r.data() == data@,
            r.pos() == 0,
            r.capacity() == Some(data@.len()),
            r.issued().len() == 0,
            r.faultless(),
    {
        MemTarget { data, pos: 0, fixed: true, writes: Vec::new() }
    }

    /// An empty file that grows as it is written, up to `usize::MAX` bytes.
    pub fn growable() -> (r: Self)
        ensures
            r.data().len() == 0,
            r.pos() == 0,
            r.capacity() == Some(usize::MAX as nat),
            r.issued().len() == 0,
            r.faultless(),
    {
        MemTarget { data: Vec::new(), pos: 0, fixed: false, writes: Vec::new() }
    }

    /// What the destination holds.
    pub fn bytes(&self) -> (r: &Vec<u8>)
        ensures
            r@ == self.data(),
    {
        &self.data
    }

    /// The sizes of the write requests received, oldest first.
    pub fn write_sizes(&self) -> (r: &Vec<usize>)
        ensures
            r@.map_values(|x: usize| x as nat) == self.issued(),
    {
        &self.writes
    }
}

impl BlockTarget for MemTarget {
    closed spec fn data(&self) -> Seq<u8> {
        self.data@
    }

    closed spec fn pos(&self) -> nat {
        self.pos as nat
    }

    closed spec fn capacity(&self) -> Option<nat> {
        if self.fixed {
            Some(self.data@.len())
        } else {
            Some(usize::MAX as nat)
        }
    }

    closed spec fn issued(&self) -> Seq<nat> {
        self.writes@.map_values(|x: usize| x as nat)
    }

    closed spec fn faultless(&self) -> bool {
        true
    }

    fn write(&mut self, buf: &Vec<u8>, len: usize) -> (r: Result<usize, ErrorType>) {
        self.writes.push(len);
        assert(self.issued() =~= old(self).issued().push(len as nat));
        let cap = if self.fixed {
            self.data.len()
        } else {
            usize::MAX
        };
        let n = if len <= cap - self.pos {
            len
        } else {
            cap - self.pos
        };
        assert(n == accepted(old(self).capacity(), old(self).pos(), len as nat));
        let ghost d0 = self.data@;
        let ghost pos0 = self.pos as int;
        let mut i: usize = 0;
        while i < n
            invariant
                i <= n <= len <= buf.len(),
                pos0 == self.pos,
                pos0 <= d0.len(),
                self.fixed ==> pos0 + n <= d0.len(),
                pos0 + n <= usize::MAX,
                self.fixed == old(self).fixed,
                self.writes@ == old(self).writes@.push(len),
                self.data@ == write_at(d0, pos0, buf@.subrange(0, i as int)),
                self.data@.len() >= pos0 + i,
                self.fixed ==> self.data@.len() == d0.len(),
            decreases n - i,
        {
            let ghost before = self.data@;
            if self.pos + i < self.data.len() {
                self.data.set(self.pos + i, buf[i]);
            } else {
                self.data.push(buf[i]);
            }
            i += 1;
            assert(self.data@ =~= write_at(d0, pos0, buf@.subrange(0, i as int)));
        }
        self.pos = self.pos + n;
        Ok(n)
    }

    fn flush(&mut self) -> (r: Result<(), ErrorType>) {
        Ok(())
    }

    fn read(&mut self, buf: &mut Vec<u8>, start: usize) -> (r: Result<usize, ErrorType>) {
        let avail = self.data.len() - self.pos;
        let room = buf.len() - start;
        let n = if avail < room {
            avail
        } else {
            room
        };
        copy_into(buf, start, &self.data, self.pos, n);
        self.pos = self.pos + n;
        Ok(n)
    }

    fn rewind(&mut self) -> (r: Result<(), ErrorType>) {
        self.pos = 0;
        Ok(())
    }
}

/// Status messages kept in memory, in the order they were sent.
pub struct MessageLog {
    msgs: Vec<StatusMessage>,
}

impl MessageLog {
    pub fn new() -> (r: Self)
        ensures
            r.sent().len() == 0,
    {
        MessageLog { msgs: Vec::new() }
    }

    /// Every message sent so far, oldest first.
    pub fn messages(&self) -> (r: &Vec<StatusMessage>)
        ensures
            r@ == self.sent(),
    {
        &self.msgs
    }
}

impl StatusSink for MessageLog {
    closed spec fn sent(&self) -> Seq<StatusMessage> {
        self.msgs@
    }

    fn send(&mut self, msg: StatusMessage) {
        self.msgs.push(msg);
    }
}

} // verus!
