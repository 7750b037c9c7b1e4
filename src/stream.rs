//! The three endpoints that the engines work against: a decoded source, a
//! destination that can be written and read back, and a status channel.
use vstd::prelude::*;

use crate::ipc::{ErrorType, StatusMessage};

verus! {

/// The bytes of `d` after `b` is written over it at offset `p`; bytes past
/// the old end extend it.
pub open spec fn write_at(d: Seq<u8>, p: int, b: Seq<u8>) -> Seq<u8> {
    if p + b.len() <= d.len() {
        d.subrange(0, p) + b + d.subrange(p + b.len(), d.len() as int)
    } else {
        d.subrange(0, p) + b
    }
}

/// Bytes written at an offset read back the same from that offset: after a
/// complete write run of a source onto a destination whose cursor stood at
/// `p`, the bytes from `p` on are the source's, byte for byte.
pub proof fn lemma_write_then_read(d: Seq<u8>, p: int, b: Seq<u8>)
    requires
        0 <= p <= d.len(),
    ensures
        write_at(d, p, b).len() >= p + b.len(),
        write_at(d, p, b).subrange(p, p + b.len()) == b,
        write_at(d, p, b).subrange(0, p) == d.subrange(0, p),
{
    assert(write_at(d, p, b).subrange(p, p + b.len()) =~= b);
    assert(write_at(d, p, b).subrange(0, p) =~= d.subrange(0, p));
}

/// How many of `len` bytes offered at offset `pos` a destination of the given
/// capacity takes.
pub open spec fn accepted(capacity: Option<nat>, pos: nat, len: nat) -> nat {
    match capacity {
        None => len,
        Some(c) => if pos + len <= c {
            len
        } else if pos <= c {
            (c - pos) as nat
        } else {
            0
        },
    }
}

/// Whether `len` bytes fit at offset `pos` of a destination of this capacity.
pub open spec fn fits(capacity: Option<nat>, pos: nat, len: nat) -> bool {
    match capacity {
        None => true,
        Some(c) => pos + len <= c,
    }
}

/// A readable stream of decoded bytes over a raw (possibly compressed) input.
///
/// The model functions have default bodies only so that endpoints written in
/// plain Rust outside this crate (over files and devices) can implement the
/// trait; such an endpoint cannot state a model, and nothing is proved of it.
/// Proofs over a generic endpoint never use the defaults, and the in-memory
/// endpoints of this crate give every model function.
pub trait ByteSource {
    /// Decoded bytes that have not been read yet.
    open spec fn rest(&self) -> Seq<u8> {
        Seq::empty()
    }

    /// The whole decoded stream, from its start.
    open spec fn content(&self) -> Seq<u8> {
        Seq::empty()
    }

    /// Raw bytes consumed from the underlying input so far.
    open spec fn consumed(&self) -> u64 {
        0
    }

    /// Decoding is the identity: each decoded byte consumes one raw byte.
    open spec fn passthrough(&self) -> bool {
        false
    }

    /// No operation on this source fails.
    open spec fn faultless(&self) -> bool {
        false
    }

    /// Reads decoded bytes into `buf` from index `start` on; `Ok(0)` means the
    /// stream is exhausted.
    fn read(&mut self, buf: &mut Vec<u8>, start: usize) -> (r: Result<usize, ErrorType>)
        requires
            start < old(buf).len(),
        ensures
            final(buf).len() == old(buf).len(),
            final(self).content() == old(self).content(),
            final(self).passthrough() == old(self).passthrough(),
            final(self).faultless() == old(self).faultless(),
            old(self).faultless() ==> r is Ok,
            r is Err ==> r->Err_0 is Io,
            match r {
                Ok(n) => {
                    &&& n <= old(buf).len() - start
                    &&& n <= old(self).rest().len()
                    &&& (n == 0 <==> old(self).rest().len() == 0)
                    &&& final(buf)@ == old(buf)@.subrange(0, start as int) + old(self).rest().subrange(
                        0,
                        n as int,
                    ) + old(buf)@.subrange(start + n, old(buf).len() as int)
                    &&& final(self).rest() == old(self).rest().skip(n as int)
                    &&& old(self).passthrough() ==> final(self).consumed() == old(self).consumed()
                        + n
                },
                Err(_) => true,
            },
    ;

    /// The raw-byte cursor.
    fn consumed_bytes(&self) -> (r: u64)
        ensures
            r == self.consumed(),
    ;

    /// Starts the decoded stream over from its beginning.
    fn rewind(&mut self) -> (r: Result<(), ErrorType>)
        ensures
            final(self).content() == old(self).content(),
            final(self).passthrough() == old(self).passthrough(),
            final(self).faultless() == old(self).faultless(),
            old(self).faultless() ==> r is Ok,
            r is Err ==> r->Err_0 is Io,
            r is Ok ==> final(self).rest() == old(self).content() && final(self).consumed() == 0,
    ;
}

/// A destination (file, disk or partition) with a cursor, written in blocks
/// and read back for verification.
///
/// The model functions have default bodies only so that endpoints written in
/// plain Rust outside this crate (over files and devices) can implement the
/// trait; such an endpoint cannot state a model, and nothing is proved of it.
/// Proofs over a generic endpoint never use the defaults, and the in-memory
/// endpoints of this crate give every model function.
pub trait BlockTarget {
    /// What the destination holds.
    open spec fn data(&self) -> Seq<u8> {
        Seq::empty()
    }

    /// The cursor.
    open spec fn pos(&self) -> nat {
        0
    }

    /// The most bytes it can hold; `None` where it grows as needed.
    open spec fn capacity(&self) -> Option<nat> {
        None
    }

    /// The sizes of the write requests it has received, oldest first.
    open spec fn issued(&self) -> Seq<nat> {
        Seq::empty()
    }

    /// No operation on this destination fails.
    open spec fn faultless(&self) -> bool {
        false
    }

    /// Writes `buf[..len]` at the cursor; returns how many bytes it took.
    fn write(&mut self, buf: &Vec<u8>, len: usize) -> (r: Result<usize, ErrorType>)
        requires
            len <= buf.len(),
            old(self).pos() <= old(self).data().len(),
        ensures
            final(self).issued() == old(self).issued().push(len as nat),
            final(self).capacity() == old(self).capacity(),
            final(self).faultless() == old(self).faultless(),
            final(self).pos() <= final(self).data().len(),
            old(self).faultless() ==> r == Ok::<usize, ErrorType>(
                accepted(old(self).capacity(), old(self).pos(), len as nat) as usize,
            ),
            r is Err ==> r->Err_0 is Io,
            match r {
                Ok(n) => {
                    &&& n <= len
                    &&& final(self).data() == write_at(
                        old(self).data(),
                        old(self).pos() as int,
                        buf@.subrange(0, n as int),
                    )
                    &&& final(self).pos() == old(self).pos() + n
                },
                Err(_) => true,
            },
    ;

    /// Pushes written bytes down to the medium.
    fn flush(&mut self) -> (r: Result<(), ErrorType>)
        ensures
            final(self).data() == old(self).data(),
            final(self).pos() == old(self).pos(),
            final(self).issued() == old(self).issued(),
            final(self).capacity() == old(self).capacity(),
            final(self).faultless() == old(self).faultless(),
            old(self).faultless() ==> r is Ok,
            r is Err ==> r->Err_0 is Io,
    ;

    /// Reads bytes at the cursor into `buf` from index `start` on; `Ok(0)`
    /// means the cursor is at the end.
    fn read(&mut self, buf: &mut Vec<u8>, start: usize) -> (r: Result<usize, ErrorType>)
        requires
            start < old(buf).len(),
            old(self).pos() <= old(self).data().len(),
        ensures
            final(buf).len() == old(buf).len(),
            final(self).data() == old(self).data(),
            final(self).issued() == old(self).issued(),
            final(self).capacity() == old(self).capacity(),
            final(self).faultless() == old(self).faultless(),
            final(self).pos() <= final(self).data().len(),
            old(self).faultless() ==> r is Ok,
            r is Err ==> r->Err_0 is Io,
            match r {
                Ok(n) => {
                    &&& n <= old(buf).len() - start
                    &&& old(self).pos() + n <= old(self).data().len()
                    &&& (n == 0 <==> old(self).pos() == old(self).data().len())
                    &&& final(buf)@ == old(buf)@.subrange(0, start as int) + old(self).data().subrange(
                        old(self).pos() as int,
                        old(self).pos() + n,
                    ) + old(buf)@.subrange(start + n, old(buf).len() as int)
                    &&& final(self).pos() == old(self).pos() + n
                },
                Err(_) => true,
            },
    ;

    /// Moves the cursor back to the start.
    fn rewind(&mut self) -> (r: Result<(), ErrorType>)
        ensures
            final(self).data() == old(self).data(),
            final(self).issued() == old(self).issued(),
            final(self).capacity() == old(self).capacity(),
            final(self).faultless() == old(self).faultless(),
            final(self).pos() <= final(self).data().len(),
            old(self).faultless() ==> r is Ok,
            r is Err ==> r->Err_0 is Io,
            r is Ok ==> final(self).pos() == 0,
    ;
}

/// Where status messages go, in the order they are sent. The default model
/// records nothing; the crate's `MessageLog` gives its own.
pub trait StatusSink {
    /// Every message sent so far, oldest first.
    open spec fn sent(&self) -> Seq<StatusMessage> {
        Seq::empty()
    }

    fn send(&mut self, msg: StatusMessage)
        ensures
            final(self).sent() == old(self).sent().push(msg),
    ;
}

} // verus!
