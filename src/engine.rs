//! The block-copy and block-verify engines.
use vstd::prelude::*;

use crate::ipc::{ErrorType, StatusMessage};
use crate::stream::{
    accepted, fits, lemma_write_then_read, write_at, BlockTarget, ByteSource, StatusSink,
};

verus! {

/// The lesser of two numbers.
pub open spec fn min_nat(a: nat, b: nat) -> nat {
    if a <= b {
        a
    } else {
        b
    }
}

/// How many blocks of `b` bytes a stream of `len` bytes takes (the last one
/// may be short).
pub open spec fn blocks_for(len: nat, b: nat) -> nat {
    if b == 0 {
        0
    } else {
        (((len + b - 1) as int) / (b as int)) as nat
    }
}

/// How many checkpoints a complete run over `len` bytes emits, with blocks of
/// `b` bytes and a checkpoint every `p` blocks plus one at the end.
pub open spec fn checkpoint_count(len: nat, b: nat, p: nat) -> nat {
    if p == 0 {
        0
    } else {
        blocks_for(len, b) / p + 1
    }
}

/// The source bytes that the `k`-th checkpoint (from 0) covers.
pub open spec fn checkpoint_bytes(k: nat, b: nat, p: nat, len: nat) -> nat {
    min_nat((k + 1) * p * b, len)
}

/// `m` reports `done` source bytes; where the source is not compressed the
/// raw cursor reads `base + done`.
pub open spec fn reports(m: StatusMessage, done: nat, base: u64, passthrough: bool) -> bool {
    &&& m is TotalBytes
    &&& passthrough ==> m->src == base + done
}

/// Each message of `msgs` is the checkpoint of its rank.
pub open spec fn checkpoints(
    msgs: Seq<StatusMessage>,
    b: nat,
    p: nat,
    len: nat,
    base: u64,
    passthrough: bool,
) -> bool {
    forall|k: int|
        0 <= k < msgs.len() ==> reports(
            #[trigger] msgs[k],
            checkpoint_bytes(k as nat, b, p, len),
            base,
            passthrough,
        )
}

/// Each write checkpoint also reports the same count of destination bytes.
pub open spec fn write_checkpoints(msgs: Seq<StatusMessage>, b: nat, p: nat, len: nat) -> bool {
    forall|k: int|
        0 <= k < msgs.len() ==> (#[trigger] msgs[k])->dest == checkpoint_bytes(k as nat, b, p, len)
}

/// The sum of the sizes.
pub open spec fn sum_sizes(sizes: Seq<nat>) -> nat
    decreases sizes.len(),
{
    if sizes.len() == 0 {
        0
    } else {
        sum_sizes(sizes.drop_last()) + sizes.last()
    }
}

proof fn lemma_sum_push(sizes: Seq<nat>, x: nat)
    ensures
        sum_sizes(sizes.push(x)) == sum_sizes(sizes) + x,
{
    assert(sizes.push(x).drop_last() =~= sizes);
}

/// Every size is `b` but the last, which is between 1 and `b`.
pub open spec fn block_aligned(sizes: Seq<nat>, b: nat) -> bool {
    &&& forall|i: int| 0 <= i < sizes.len() - 1 ==> sizes[i] == b
    &&& sizes.len() > 0 ==> 0 < sizes.last() <= b
}

proof fn lemma_write_at_append(d: Seq<u8>, p: int, a: Seq<u8>, c: Seq<u8>)
    requires
        0 <= p <= d.len(),
    ensures
        write_at(d, p, a).len() >= p + a.len(),
        write_at(write_at(d, p, a), p + a.len(), c) == write_at(d, p, a + c),
{
    let e = write_at(d, p, a);
    assert(e.subrange(0, p + a.len()) =~= d.subrange(0, p) + a);
    if p + a.len() + c.len() <= d.len() {
        assert(e.subrange(p + a.len() + c.len(), e.len() as int) =~= d.subrange(
            p + a.len() + c.len(),
            d.len() as int,
        ));
        assert(write_at(e, p + a.len(), c) =~= write_at(d, p, a + c));
    } else {
        assert(write_at(e, p + a.len(), c) =~= write_at(d, p, a + c));
    }
}

proof fn lemma_blocks_for(total: nat, len: nat, b: nat)
    requires
        b > 0,
        total == 0 ==> len == 0,
        total > 0 ==> (total - 1) * b < len <= total * b,
    ensures
        blocks_for(len, b) == total,
{
    if total > 0 {
        assert((total - 1) * b + b == total * b) by (nonlinear_arith);
        assert(((len + b - 1) as int) / (b as int) == total) by (nonlinear_arith)
            requires
                (total - 1) * b < len,
                len <= total * b,
                (total - 1) * b + b == total * b,
                b > 0,
        ;
    } else {
        assert(((b - 1) as int) / (b as int) == 0) by (nonlinear_arith)
            requires
                b > 0,
        ;
    }
}

/// A buffer of `n` zero bytes.
fn zeroed(n: usize) -> (r: Vec<u8>)
    ensures
        r.len() == n,
{
    let mut v: Vec<u8> = Vec::new();
    while v.len() < n
        invariant
            v.len() <= n,
        decreases n - v.len(),
    {
        v.push(0);
    }
    v
}

/// Reads from `src` until `buf` is full or the stream ends.
fn fill_from_source<S: ByteSource>(src: &mut S, buf: &mut Vec<u8>) -> (r: Result<usize, ErrorType>)
    requires
        old(buf).len() > 0,
    ensures
        final(buf).len() == old(buf).len(),
        final(src).content() == old(src).content(),
        final(src).passthrough() == old(src).passthrough(),
        final(src).faultless() == old(src).faultless(),
        old(src).faultless() ==> r is Ok,
        r is Err ==> r->Err_0 is Io,
        match r {
            Ok(n) => {
                &&& n == min_nat(old(buf).len() as nat, old(src).rest().len())
                &&& final(buf)@.subrange(0, n as int) == old(src).rest().subrange(0, n as int)
                &&& final(src).rest() == old(src).rest().skip(n as int)
                &&& old(src).passthrough() ==> final(src).consumed() == old(src).consumed() + n
            },
            Err(_) => true,
        },
{
    let ghost rest0 = src.rest();
    let mut filled: usize = 0;
    while filled < buf.len()
        invariant
            filled <= buf.len() == old(buf).len(),
            filled <= rest0.len(),
            rest0 == old(src).rest(),
            buf@.subrange(0, filled as int) == rest0.subrange(0, filled as int),
            src.rest() == rest0.skip(filled as int),
            src.content() == old(src).content(),
            src.passthrough() == old(src).passthrough(),
            src.faultless() == old(src).faultless(),
            src.passthrough() ==> src.consumed() == old(src).consumed() + filled,
        decreases buf.len() - filled,
    {
        let ghost before = buf@;
        match src.read(buf, filled) {
            Ok(n) => {
                if n == 0 {
                    assert(rest0.skip(filled as int).len() == 0);
                    assert(src.rest() =~= rest0.skip(filled as int));
                    assert(buf@ =~= before);
                    return Ok(filled);
                }
                assert(buf@.subrange(0, filled + n) =~= rest0.subrange(0, filled + n)) by {
                    assert forall|i: int| 0 <= i < filled + n implies buf@[i] == rest0[i] by {
                        if i < filled {
                            assert(buf@[i] == before.subrange(0, filled as int)[i]);
                        } else {
                            assert(buf@[i] == rest0.skip(filled as int)[i - filled]);
                        }
                    }
                }
                assert(src.rest() =~= rest0.skip(filled + n));
                filled = filled + n;
            },
            Err(e) => {
                return Err(e);
            },
        }
    }
    Ok(filled)
}

/// Streams the decoded source onto the destination in blocks of `buf_size`
/// bytes, with a progress checkpoint every `checkpoint_period` blocks and one
/// when the source runs out.
pub struct WriteOp {
    pub buf_size: usize,
    pub checkpoint_period: usize,
}

impl WriteOp {
    /// Copies the rest of `src` to `dest` at its cursor. Each block is one
    /// write request; one that the destination does not take whole ends the
    /// run with `EndOfOutput`. Checkpoints go to `tx`.
    #[verifier::rlimit(80)]
    pub fn execute<S: ByteSource, D: BlockTarget, R: StatusSink>(
        &self,
        src: &mut S,
        dest: &mut D,
        tx: &mut R,
    ) -> (r: Result<(), ErrorType>)
        requires
            self.buf_size > 0,
            self.checkpoint_period > 0,
            old(src).rest().len() <= u64::MAX,
            old(dest).pos() <= old(dest).data().len(),
            old(dest).capacity() matches Some(c) ==> old(dest).pos() <= c,
        ensures
            final(src).content() == old(src).content(),
            final(src).passthrough() == old(src).passthrough(),
            final(src).faultless() == old(src).faultless(),
            final(dest).capacity() == old(dest).capacity(),
            final(dest).faultless() == old(dest).faultless(),
            final(dest).pos() <= final(dest).data().len(),
            final(tx).sent().len() >= old(tx).sent().len(),
            final(tx).sent().subrange(0, old(tx).sent().len() as int) == old(tx).sent(),
            checkpoints(
                final(tx).sent().skip(old(tx).sent().len() as int),
                self.buf_size as nat,
                self.checkpoint_period as nat,
                old(src).rest().len(),
                old(src).consumed(),
                old(src).passthrough(),
            ),
            write_checkpoints(
                final(tx).sent().skip(old(tx).sent().len() as int),
                self.buf_size as nat,
                self.checkpoint_period as nat,
                old(src).rest().len(),
            ),
            final(dest).issued().subrange(0, old(dest).issued().len() as int) == old(dest).issued(),
            block_aligned(
                final(dest).issued().skip(old(dest).issued().len() as int),
                self.buf_size as nat,
            ),
            r is Ok ==> {
                &&& final(dest).data() == write_at(
                    old(dest).data(),
                    old(dest).pos() as int,
                    old(src).rest(),
                )
                &&& final(dest).data().subrange(
                    old(dest).pos() as int,
                    (old(dest).pos() + old(src).rest().len()) as int,
                ) == old(src).rest()
                &&& final(dest).pos() == old(dest).pos() + old(src).rest().len()
                &&& final(src).rest().len() == 0
                &&& final(tx).sent().len() - old(tx).sent().len() == checkpoint_count(
                    old(src).rest().len(),
                    self.buf_size as nat,
                    self.checkpoint_period as nat,
                )
                &&& final(dest).issued().len() - old(dest).issued().len() == blocks_for(
                    old(src).rest().len(),
                    self.buf_size as nat,
                )
                &&& sum_sizes(final(dest).issued().skip(old(dest).issued().len() as int))
                    == old(src).rest().len()
                &&& final(tx).sent().last()->src == final(src).consumed()
            },
            old(dest).faultless() || !(r matches Err(ErrorType::Io(_))) ==> {
                &&& old(dest).pos() <= final(dest).pos() <= old(dest).pos() + old(src).rest().len()
                &&& final(dest).data() == write_at(
                    old(dest).data(),
                    old(dest).pos() as int,
                    old(src).rest().subrange(0, final(dest).pos() - old(dest).pos()),
                )
            },
            r is Err ==> !(r->Err_0 is VerificationFailed),
            r == Err::<(), ErrorType>(ErrorType::EndOfOutput) ==> {
                &&& final(dest).issued().len() > old(dest).issued().len()
                &&& sum_sizes(final(dest).issued().skip(old(dest).issued().len() as int).drop_last())
                    <= final(dest).pos() - old(dest).pos()
                &&& final(dest).pos() - old(dest).pos() < sum_sizes(
                    final(dest).issued().skip(old(dest).issued().len() as int),
                )
                &&& final(tx).sent().len() - old(tx).sent().len() == (final(dest).issued().len()
                    - old(dest).issued().len() - 1) as nat / self.checkpoint_period as nat
                &&& old(dest).faultless() ==> final(dest).capacity() == Some(final(dest).pos())
            },
            old(src).faultless() && old(dest).faultless() ==> {
                &&& (r is Ok <==> fits(
                    old(dest).capacity(),
                    old(dest).pos(),
                    old(src).rest().len(),
                ))
                &&& (r is Err ==> r == Err::<(), ErrorType>(ErrorType::EndOfOutput))
            },
    {
        let ghost rest0 = src.rest();
        let ghost len = rest0.len();
        let ghost d0 = dest.data();
        let ghost pos0 = dest.pos();
        let ghost s0 = tx.sent();
        let ghost i0 = dest.issued();
        let ghost base = src.consumed();
        let ghost bs = self.buf_size as nat;
        let ghost per = self.checkpoint_period as nat;
        let mut buf = zeroed(self.buf_size);
        let mut written: u64 = 0;
        let mut blocks: usize = 0;
        let ghost mut total: nat = 0;
        let ghost mut cps: nat = 0;
        assert(rest0.subrange(0, 0) =~= Seq::<u8>::empty());
        assert(write_at(d0, pos0 as int, Seq::empty()) =~= d0);
        loop
            invariant
                buf.len() == self.buf_size,
                self.buf_size > 0,
                self.checkpoint_period > 0,
                len == rest0.len(),
                rest0 == old(src).rest(),
                d0 == old(dest).data(),
                pos0 == old(dest).pos(),
                s0 == old(tx).sent(),
                i0 == old(dest).issued(),
                base == old(src).consumed(),
                bs == self.buf_size,
                per == self.checkpoint_period,
                old(dest).capacity() matches Some(c) ==> pos0 <= c,
                len <= u64::MAX,
                pos0 <= d0.len(),
                blocks < self.checkpoint_period,
                total == cps * per + blocks,
                written == min_nat(total * bs, len),
                total > 0 ==> (total - 1) * bs < written,
                written <= len,
                src.rest() == rest0.skip(written as int),
                src.content() == old(src).content(),
                src.passthrough() == old(src).passthrough(),
                src.faultless() == old(src).faultless(),
                src.passthrough() ==> src.consumed() == base + written,
                dest.data() == write_at(d0, pos0 as int, rest0.subrange(0, written as int)),
                dest.pos() == pos0 + written,
                dest.pos() <= dest.data().len(),
                dest.capacity() == old(dest).capacity(),
                dest.faultless() == old(dest).faultless(),
                dest.faultless() ==> fits(dest.capacity(), pos0, written as nat),
                dest.issued().len() == i0.len() + total,
                dest.issued().subrange(0, i0.len() as int) == i0,
                block_aligned(dest.issued().skip(i0.len() as int), bs),
                total > 0 && dest.issued().last() < bs ==> written == len,
                sum_sizes(dest.issued().skip(i0.len() as int)) == written,
                tx.sent().len() == s0.len() + cps,
                tx.sent().subrange(0, s0.len() as int) == s0,
                checkpoints(tx.sent().skip(s0.len() as int), bs, per, len, base, src.passthrough()),
                write_checkpoints(tx.sent().skip(s0.len() as int), bs, per, len),
            decreases src.rest().len(),
        {
            let n = match fill_from_source(src, &mut buf) {
                Ok(n) => n,
                Err(e) => {
                    return Err(e);
                },
            };
            if n == 0 {
                match dest.flush() {
                    Ok(()) => {},
                    Err(e) => {
                        return Err(e);
                    },
                }
                let msg = StatusMessage::TotalBytes { src: src.consumed_bytes(), dest: written };
                proof {
                    assert(written == len);
                    if total == 0 {
                        assert(total * bs == 0) by (nonlinear_arith)
                            requires
                                total == 0,
                        ;
                    }
                    assert(written <= total * bs);
                    assert((cps + 1) * per * bs >= total * bs) by (nonlinear_arith)
                        requires
                            total == cps * per + blocks,
                            blocks < per,
                    ;
                    assert(checkpoint_bytes(cps, bs, per, len) == len);
                    assert(rest0.subrange(0, written as int) =~= rest0);
                    lemma_write_then_read(d0, pos0 as int, rest0);
                    lemma_blocks_for(total, len, bs);
                    assert(((total as int) / (per as int)) == cps) by (nonlinear_arith)
                        requires
                            total == cps * per + blocks,
                            blocks < per,
                    ;
                }
                let ghost sent_before = tx.sent();
                tx.send(msg);
                proof {
                    assert(tx.sent().subrange(0, s0.len() as int) =~= sent_before.subrange(0, s0.len() as int));
                    assert(tx.sent().skip(s0.len() as int) =~= sent_before.skip(s0.len() as int).push(msg));
                }
                return Ok(());
            }
            let ghost block = buf@.subrange(0, n as int);
            let ghost data_before = dest.data();
            let ghost issued_before = dest.issued();
            let w = match dest.write(&buf, n) {
                Ok(w) => w,
                Err(e) => {
                    proof {
                        assert(dest.issued().subrange(0, i0.len() as int) =~= issued_before.subrange(0, i0.len() as int));
                        assert(dest.issued().skip(i0.len() as int) =~= issued_before.skip(i0.len() as int).push(n as nat));
                        assert(e is Io);
                    }
                    return Err(e);
                },
            };
            proof {
                assert(dest.issued().subrange(0, i0.len() as int) =~= issued_before.subrange(0, i0.len() as int));
                assert(dest.issued().skip(i0.len() as int) =~= issued_before.skip(i0.len() as int).push(n as nat));
                if dest.faultless() {
                    assert(w == accepted(dest.capacity(), (pos0 + written) as nat, n as nat));
                }
            }
            proof {
                lemma_sum_push(issued_before.skip(i0.len() as int), n as nat);
                lemma_write_at_append(
                    d0,
                    pos0 as int,
                    rest0.subrange(0, written as int),
                    block.subrange(0, w as int),
                );
                assert(rest0.subrange(0, written as int) + block.subrange(0, w as int)
                    =~= rest0.subrange(0, written + w));
                assert(buf@.subrange(0, w as int) =~= block.subrange(0, w as int));
                assert(dest.issued().skip(i0.len() as int).drop_last() =~= issued_before.skip(i0.len() as int));
            }
            if w != n {
                proof {
                    assert(((total as int) / (per as int)) == cps) by (nonlinear_arith)
                        requires
                            total == cps * per + blocks,
                            blocks < per,
                    ;
                }
                return Err(ErrorType::EndOfOutput);
            }
            proof {
                lemma_write_at_append(d0, pos0 as int, rest0.subrange(0, written as int), block);
                assert(rest0.subrange(0, written as int) + block =~= rest0.subrange(0, written + n));
                assert(buf@.subrange(0, w as int) =~= block);
                assert(src.rest() =~= rest0.skip(written + n));
                assert((total + 1) * bs == total * bs + bs) by (nonlinear_arith);
                assert(total * bs >= 0) by (nonlinear_arith);
                if total > 0 {
                    assert((total - 1) * bs + bs == total * bs) by (nonlinear_arith);
                }
            }
            written = written + n as u64;
            blocks = blocks + 1;
            proof {
                total = total + 1;
            }
            if blocks == self.checkpoint_period {
                match dest.flush() {
                    Ok(()) => {},
                    Err(e) => {
                        return Err(e);
                    },
                }
                let msg = StatusMessage::TotalBytes { src: src.consumed_bytes(), dest: written };
                proof {
                    assert(total * bs == (cps + 1) * per * bs) by (nonlinear_arith)
                        requires
                            total == cps * per + per,
                    ;
                }
                let ghost sent_before = tx.sent();
                tx.send(msg);
                proof {
                    assert(tx.sent().subrange(0, s0.len() as int) =~= sent_before.subrange(0, s0.len() as int));
                    assert(tx.sent().skip(s0.len() as int) =~= sent_before.skip(s0.len() as int).push(msg));
                    assert((cps + 1) * per == cps * per + per) by (nonlinear_arith);
                    cps = cps + 1;
                }
                blocks = 0;
            }
        }
    }
}

} // verus!

verus! {

/// Each verify checkpoint reports the destination bytes read back so far:
/// whole blocks, up to the end of what the destination holds.
pub open spec fn verify_checkpoints(
    msgs: Seq<StatusMessage>,
    b: nat,
    p: nat,
    len: nat,
    avail: nat,
) -> bool {
    forall|k: int|
        0 <= k < msgs.len() ==> (#[trigger] msgs[k])->dest == min_nat(
            min_nat(((k + 1) * p) as nat, blocks_for(len, b)) * b,
            avail,
        )
}

/// The bytes that `d` holds from offset `p` on equal `s` at some offset where
/// both have a byte.
pub open spec fn differs_within(d: Seq<u8>, p: int, s: Seq<u8>) -> bool {
    exists|i: int| 0 <= i < s.len() && p + i < d.len() && d[p + i] != s[i]
}

/// A verify run stopped in block `t` (from 0) of `b` bytes: every source byte
/// before it matched the destination, the source was read to the end of that
/// block and no further, and one checkpoint went out per full period of
/// blocks before it.
pub open spec fn stopped_in_block(
    t: nat,
    b: nat,
    p: nat,
    rest0: Seq<u8>,
    data: Seq<u8>,
    pos0: nat,
    rest_after: Seq<u8>,
    sent: nat,
) -> bool {
    &&& t * b < rest0.len()
    &&& pos0 + t * b <= data.len()
    &&& data.subrange(pos0 as int, (pos0 + t * b) as int) == rest0.subrange(0, (t * b) as int)
    &&& rest_after == rest0.skip(min_nat(t * b + b, rest0.len()) as int)
    &&& p > 0 && sent == t / p
}

/// Reads from `dest` until `buf` is full or the destination ends.
fn fill_from_target<D: BlockTarget>(dest: &mut D, buf: &mut Vec<u8>) -> (r: Result<usize, ErrorType>)
    requires
        old(buf).len() > 0,
        old(dest).pos() <= old(dest).data().len(),
    ensures
        final(buf).len() == old(buf).len(),
        final(dest).data() == old(dest).data(),
        final(dest).issued() == old(dest).issued(),
        final(dest).capacity() == old(dest).capacity(),
        final(dest).faultless() == old(dest).faultless(),
        final(dest).pos() <= final(dest).data().len(),
        old(dest).faultless() ==> r is Ok,
        r is Err ==> r->Err_0 is Io,
        match r {
            Ok(m) => {
                &&& m == min_nat(
                    old(buf).len() as nat,
                    (old(dest).data().len() - old(dest).pos()) as nat,
                )
                &&& final(buf)@.subrange(0, m as int) == old(dest).data().subrange(
                    old(dest).pos() as int,
                    old(dest).pos() + m,
                )
                &&& final(dest).pos() == old(dest).pos() + m
            },
            Err(_) => true,
        },
{
    let ghost data = dest.data();
    let ghost pos0 = dest.pos();
    let mut filled: usize = 0;
    while filled < buf.len()
        invariant
            filled <= buf.len() == old(buf).len(),
            data == old(dest).data(),
            pos0 == old(dest).pos(),
            pos0 + filled <= data.len(),
            dest.pos() == pos0 + filled,
            buf@.subrange(0, filled as int) == data.subrange(pos0 as int, pos0 + filled),
            dest.data() == data,
            dest.issued() == old(dest).issued(),
            dest.capacity() == old(dest).capacity(),
            dest.faultless() == old(dest).faultless(),
        decreases buf.len() - filled,
    {
        let ghost before = buf@;
        match dest.read(buf, filled) {
            Ok(n) => {
                if n == 0 {
                    assert(buf@ =~= before);
                    return Ok(filled);
                }
                assert(buf@.subrange(0, filled + n) =~= data.subrange(pos0 as int, pos0 + filled + n))
                    by {
                    assert forall|i: int| 0 <= i < filled + n implies buf@[i] == data[pos0 + i] by {
                        if i < filled {
                            assert(buf@[i] == before.subrange(0, filled as int)[i]);
                        } else {
                            assert(buf@[i] == data.subrange(pos0 + filled, pos0 + filled + n)[i
                                - filled]);
                        }
                    }
                }
                filled = filled + n;
            },
            Err(e) => {
                return Err(e);
            },
        }
    }
    Ok(filled)
}

/// Whether the first `n` bytes of `a` and `b` agree.
fn same_prefix(a: &Vec<u8>, b: &Vec<u8>, n: usize) -> (r: bool)
    requires
        n <= a.len(),
        n <= b.len(),
    ensures
        r == (a@.subrange(0, n as int) == b@.subrange(0, n as int)),
{
    let mut i: usize = 0;
    while i < n
        invariant
            i <= n <= a.len(),
            n <= b.len(),
            a@.subrange(0, i as int) == b@.subrange(0, i as int),
        decreases n - i,
    {
        if a[i] != b[i] {
            assert(a@.subrange(0, n as int)[i as int] != b@.subrange(0, n as int)[i as int]);
            return false;
        }
        assert(a@.subrange(0, i + 1) =~= a@.subrange(0, i as int).push(a@[i as int]));
        assert(b@.subrange(0, i + 1) =~= b@.subrange(0, i as int).push(b@[i as int]));
        i += 1;
    }
    true
}

proof fn lemma_blocks_bound(total: nat, len: nat, b: nat)
    requires
        b > 0,
        total > 0 ==> (total - 1) * b < len,
    ensures
        total <= blocks_for(len, b),
{
    if total > 0 {
        assert((total - 1) * b + b <= len + b - 1) by (nonlinear_arith)
            requires
                (total - 1) * b < len,
        ;
        assert(total <= ((len + b - 1) as int) / (b as int)) by (nonlinear_arith)
            requires
                (total - 1) * b + b <= len + b - 1,
                b > 0,
        ;
    }
}

/// Reads the decoded source and the destination side by side in blocks of
/// `buf_size` bytes and compares them, with a progress checkpoint every
/// `checkpoint_period` blocks and one when the source runs out.
pub struct VerifyOp {
    pub buf_size: usize,
    pub checkpoint_period: usize,
}

impl VerifyOp {
    /// Checks that `dest`, from its cursor on, starts with the rest of `src`.
    /// Stops at the first block that differs (`VerificationFailed`) or that the
    /// destination cannot fill (`EndOfOutput`). Checkpoints go to `tx`.
    #[verifier::rlimit(80)]
    pub fn execute<S: ByteSource, D: BlockTarget, R: StatusSink>(
        &self,
        src: &mut S,
        dest: &mut D,
        tx: &mut R,
    ) -> (r: Result<(), ErrorType>)
        requires
            self.buf_size > 0,
            self.checkpoint_period > 0,
            old(src).rest().len() <= u64::MAX,
            old(dest).pos() <= old(dest).data().len(),
            old(dest).data().len() <= u64::MAX,
        ensures
            final(src).content() == old(src).content(),
            final(src).passthrough() == old(src).passthrough(),
            final(src).faultless() == old(src).faultless(),
            final(dest).data() == old(dest).data(),
            final(dest).issued() == old(dest).issued(),
            final(dest).capacity() == old(dest).capacity(),
            final(dest).faultless() == old(dest).faultless(),
            final(dest).pos() <= final(dest).data().len(),
            final(tx).sent().len() >= old(tx).sent().len(),
            final(tx).sent().subrange(0, old(tx).sent().len() as int) == old(tx).sent(),
            checkpoints(
                final(tx).sent().skip(old(tx).sent().len() as int),
                self.buf_size as nat,
                self.checkpoint_period as nat,
                old(src).rest().len(),
                old(src).consumed(),
                old(src).passthrough(),
            ),
            verify_checkpoints(
                final(tx).sent().skip(old(tx).sent().len() as int),
                self.buf_size as nat,
                self.checkpoint_period as nat,
                old(src).rest().len(),
                (old(dest).data().len() - old(dest).pos()) as nat,
            ),
            r is Ok ==> {
                &&& old(dest).pos() + old(src).rest().len() <= old(dest).data().len()
                &&& old(dest).data().subrange(
                    old(dest).pos() as int,
                    (old(dest).pos() + old(src).rest().len()) as int,
                ) == old(src).rest()
                &&& final(tx).sent().last()->src == final(src).consumed()
                &&& final(src).rest().len() == 0
                &&& final(tx).sent().len() - old(tx).sent().len() == checkpoint_count(
                    old(src).rest().len(),
                    self.buf_size as nat,
                    self.checkpoint_period as nat,
                )
            },
            r == Err::<(), ErrorType>(ErrorType::VerificationFailed) ==> differs_within(
                old(dest).data(),
                old(dest).pos() as int,
                old(src).rest(),
            ),
            r == Err::<(), ErrorType>(ErrorType::EndOfOutput) ==> old(dest).pos() + old(
                src,
            ).rest().len() > old(dest).data().len(),
            r == Err::<(), ErrorType>(ErrorType::VerificationFailed) ==> exists|t: nat|
                {
                    &&& #[trigger] stopped_in_block(
                        t,
                        self.buf_size as nat,
                        self.checkpoint_period as nat,
                        old(src).rest(),
                        old(dest).data(),
                        old(dest).pos(),
                        final(src).rest(),
                        (final(tx).sent().len() - old(tx).sent().len()) as nat,
                    )
                    &&& old(dest).pos() + min_nat((t * self.buf_size + self.buf_size) as nat, old(src).rest().len())
                        <= old(dest).data().len()
                    &&& differs_within(
                        old(dest).data(),
                        old(dest).pos() + t * self.buf_size,
                        old(src).rest().subrange(
                            (t * self.buf_size) as int,
                            min_nat((t * self.buf_size + self.buf_size) as nat, old(src).rest().len()) as int,
                        ),
                    )
                    &&& final(dest).pos() == old(dest).pos() + t * self.buf_size + min_nat(
                        self.buf_size as nat,
                        (old(dest).data().len() - old(dest).pos() - t * self.buf_size) as nat,
                    )
                },
            r == Err::<(), ErrorType>(ErrorType::EndOfOutput) ==> exists|t: nat|
                {
                    &&& #[trigger] stopped_in_block(
                        t,
                        self.buf_size as nat,
                        self.checkpoint_period as nat,
                        old(src).rest(),
                        old(dest).data(),
                        old(dest).pos(),
                        final(src).rest(),
                        (final(tx).sent().len() - old(tx).sent().len()) as nat,
                    )
                    &&& old(dest).pos() + min_nat((t * self.buf_size + self.buf_size) as nat, old(src).rest().len())
                        > old(dest).data().len()
                    &&& final(dest).pos() == old(dest).data().len()
                },
            old(src).faultless() && old(dest).faultless() ==> !(r matches Err(ErrorType::Io(_))),
            old(src).faultless() && old(dest).faultless() ==> (r is Ok <==> (old(dest).pos()
                + old(src).rest().len() <= old(dest).data().len() && old(dest).data().subrange(
                old(dest).pos() as int,
                (old(dest).pos() + old(src).rest().len()) as int,
            ) == old(src).rest())),
            old(src).faultless() && old(dest).faultless() && old(dest).pos() + old(
                src,
            ).rest().len() <= old(dest).data().len() && differs_within(
                old(dest).data(),
                old(dest).pos() as int,
                old(src).rest(),
            ) ==> r == Err::<(), ErrorType>(ErrorType::VerificationFailed),
    {
        let ghost rest0 = src.rest();
        let ghost len = rest0.len();
        let ghost data = dest.data();
        let ghost pos0 = dest.pos();
        let ghost avail: nat = (data.len() - pos0) as nat;
        let ghost s0 = tx.sent();
        let ghost base = src.consumed();
        let ghost bs = self.buf_size as nat;
        let ghost per = self.checkpoint_period as nat;
        let mut src_buf = zeroed(self.buf_size);
        let mut dest_buf = zeroed(self.buf_size);
        let mut checked: u64 = 0;
        let mut read_back: u64 = 0;
        let mut blocks: usize = 0;
        let ghost mut total: nat = 0;
        let ghost mut cps: nat = 0;
        loop
            invariant
                src_buf.len() == self.buf_size,
                dest_buf.len() == self.buf_size,
                self.buf_size > 0,
                self.checkpoint_period > 0,
                rest0 == old(src).rest(),
                len == rest0.len(),
                data == old(dest).data(),
                pos0 == old(dest).pos(),
                avail == data.len() - pos0,
                s0 == old(tx).sent(),
                base == old(src).consumed(),
                bs == self.buf_size,
                per == self.checkpoint_period,
                len <= u64::MAX,
                data.len() <= u64::MAX,
                pos0 <= data.len(),
                blocks < self.checkpoint_period,
                total == cps * per + blocks,
                checked == min_nat(total * bs, len),
                read_back == min_nat(total * bs, avail),
                total > 0 ==> (total - 1) * bs < checked,
                checked <= len,
                checked <= read_back,
                src.rest().len() > 0 ==> read_back == checked,
                data.subrange(pos0 as int, pos0 + checked) == rest0.subrange(0, checked as int),
                src.rest() == rest0.skip(checked as int),
                src.content() == old(src).content(),
                src.passthrough() == old(src).passthrough(),
                src.faultless() == old(src).faultless(),
                src.passthrough() ==> src.consumed() == base + checked,
                dest.data() == data,
                dest.pos() == pos0 + read_back,
                dest.issued() == old(dest).issued(),
                dest.capacity() == old(dest).capacity(),
                dest.faultless() == old(dest).faultless(),
                tx.sent().len() == s0.len() + cps,
                tx.sent().subrange(0, s0.len() as int) == s0,
                checkpoints(tx.sent().skip(s0.len() as int), bs, per, len, base, src.passthrough()),
                verify_checkpoints(tx.sent().skip(s0.len() as int), bs, per, len, avail),
            decreases src.rest().len(),
        {
            let n = match fill_from_source(src, &mut src_buf) {
                Ok(n) => n,
                Err(e) => {
                    return Err(e);
                },
            };
            if n == 0 {
                let msg = StatusMessage::TotalBytes { src: src.consumed_bytes(), dest: read_back };
                proof {
                    assert(checked == len);
                    if total == 0 {
                        assert(total * bs == 0) by (nonlinear_arith)
                            requires
                                total == 0,
                        ;
                    }
                    assert(checked <= total * bs);
                    assert((cps + 1) * per * bs >= total * bs) by (nonlinear_arith)
                        requires
                            total == cps * per + blocks,
                            blocks < per,
                    ;
                    assert((cps + 1) * per >= total) by (nonlinear_arith)
                        requires
                            total == cps * per + blocks,
                            blocks < per,
                    ;
                    assert(checkpoint_bytes(cps, bs, per, len) == len);
                    lemma_blocks_for(total, len, bs);
                    assert(((total as int) / (per as int)) == cps) by (nonlinear_arith)
                        requires
                            total == cps * per + blocks,
                            blocks < per,
                    ;
                    assert(data.subrange(pos0 as int, (pos0 + len) as int) =~= rest0) by {
                        assert(rest0.subrange(0, checked as int) =~= rest0);
                    }
                }
                let ghost sent_before = tx.sent();
                tx.send(msg);
                proof {
                    assert(tx.sent().subrange(0, s0.len() as int) =~= sent_before.subrange(0, s0.len() as int));
                    assert(tx.sent().skip(s0.len() as int) =~= sent_before.skip(s0.len() as int).push(msg));
                }
                return Ok(());
            }
            let ghost block = src_buf@.subrange(0, n as int);
            let m = match fill_from_target(dest, &mut dest_buf) {
                Ok(m) => m,
                Err(e) => {
                    return Err(e);
                },
            };
            proof {
                assert(src.rest() =~= rest0.skip(checked + n));
                assert(block =~= rest0.subrange(checked as int, checked + n));
                assert(checked == total * bs);
                assert(((total as int) / (per as int)) == cps) by (nonlinear_arith)
                    requires
                        total == cps * per + blocks,
                        blocks < per,
                ;
                assert(checked + n == min_nat(total * bs + bs, len));
                assert(stopped_in_block(total, bs, per, rest0, data, pos0, src.rest(), cps));
            }
            if m < n {
                proof {
                    assert(dest.pos() == data.len());
                    assert(pos0 + min_nat((total * bs + bs) as nat, len) > data.len());
                    assert(tx.sent().len() - s0.len() == cps);
                    assert(stopped_in_block(
                        total,
                        self.buf_size as nat,
                        self.checkpoint_period as nat,
                        old(src).rest(),
                        old(dest).data(),
                        old(dest).pos(),
                        src.rest(),
                        (tx.sent().len() - old(tx).sent().len()) as nat,
                    ));
                }
                return Err(ErrorType::EndOfOutput);
            }
            if !same_prefix(&src_buf, &dest_buf, n) {
                proof {
                    assert(!(src_buf@.subrange(0, n as int) =~= dest_buf@.subrange(0, n as int)));
                    let i = choose|i: int|
                        0 <= i < n && src_buf@.subrange(0, n as int)[i] != dest_buf@.subrange(
                            0,
                            n as int,
                        )[i];
                    assert(dest_buf@.subrange(0, m as int)[i] == data[pos0 + read_back + i]);
                    assert(src_buf@[i] == rest0[checked + i]);
                    assert(data[pos0 + (checked + i)] != rest0[checked + i]);
                    assert(rest0.subrange(checked as int, checked + n)[i] == rest0[checked + i]);
                    assert(differs_within(data, pos0 + checked, rest0.subrange(checked as int, checked + n)));
                    assert(pos0 + min_nat((total * bs + bs) as nat, len) <= data.len());
                    assert(dest.pos() == pos0 + total * bs + min_nat(bs, (data.len() - pos0 - total * bs) as nat));
                    assert(tx.sent().len() - s0.len() == cps);
                    assert(stopped_in_block(
                        total,
                        self.buf_size as nat,
                        self.checkpoint_period as nat,
                        old(src).rest(),
                        old(dest).data(),
                        old(dest).pos(),
                        src.rest(),
                        (tx.sent().len() - old(tx).sent().len()) as nat,
                    ));
                }
                return Err(ErrorType::VerificationFailed);
            }
            proof {
                assert(data.subrange(pos0 as int, pos0 + checked + n) =~= rest0.subrange(
                    0,
                    checked + n,
                )) by {
                    assert forall|i: int| 0 <= i < checked + n implies data[pos0 + i] == rest0[i] by {
                        if i < checked {
                            assert(data.subrange(pos0 as int, pos0 + checked)[i] == data[pos0 + i]);
                        } else {
                            assert(src_buf@.subrange(0, n as int)[i - checked] == dest_buf@.subrange(
                                0,
                                n as int,
                            )[i - checked]);
                            assert(dest_buf@.subrange(0, m as int)[i - checked] == data[pos0
                                + read_back + i - checked]);
                        }
                    }
                }
                assert((total + 1) * bs == total * bs + bs) by (nonlinear_arith);
                assert(total * bs >= 0) by (nonlinear_arith);
                if total > 0 {
                    assert((total - 1) * bs + bs == total * bs) by (nonlinear_arith);
                }
            }
            checked = checked + n as u64;
            read_back = read_back + m as u64;
            blocks = blocks + 1;
            proof {
                total = total + 1;
            }
            if blocks == self.checkpoint_period {
                let msg = StatusMessage::TotalBytes { src: src.consumed_bytes(), dest: read_back };
                proof {
                    assert(total * bs == (cps + 1) * per * bs) by (nonlinear_arith)
                        requires
                            total == cps * per + per,
                    ;
                    assert(total == (cps + 1) * per) by (nonlinear_arith)
                        requires
                            total == cps * per + per,
                    ;
                    lemma_blocks_bound(total, len, bs);
                }
                let ghost sent_before = tx.sent();
                tx.send(msg);
                proof {
                    assert(tx.sent().subrange(0, s0.len() as int) =~= sent_before.subrange(0, s0.len() as int));
                    assert(tx.sent().skip(s0.len() as int) =~= sent_before.skip(s0.len() as int).push(msg));
                    assert((cps + 1) * per == cps * per + per) by (nonlinear_arith);
                    cps = cps + 1;
                }
                blocks = 0;
            }
        }
    }
}

} // verus!
