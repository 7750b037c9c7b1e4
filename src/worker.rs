//! The worker's run: write, then verify if asked, then one terminal message.
use vstd::prelude::*;

use crate::engine::{
    checkpoint_count, checkpoints, differs_within, verify_checkpoints, write_checkpoints, VerifyOp,
    WriteOp,
};
use crate::ipc::{ErrorType, InitialInfo, StatusMessage};
use crate::stream::{fits, lemma_write_then_read, write_at, BlockTarget, ByteSource, StatusSink};

verus! {

/// Both sides of a run, opened, with the size of the raw input file.
pub struct Opened<S, D> {
    pub src: S,
    pub dest: D,
    pub input_file_bytes: u64,
}

/// The endpoints are ready for a run: the source stands at its start, the
/// destination cursor within what it holds, and every count fits in 64 bits.
pub open spec fn ready<S: ByteSource, D: BlockTarget>(src: S, dest: D) -> bool {
    &&& src.rest() == src.content()
    &&& src.content().len() <= u64::MAX
    &&& dest.pos() <= dest.data().len()
    &&& dest.capacity() matches Some(c) ==> dest.pos() <= c
    &&& dest.data().len() <= u64::MAX
    &&& dest.pos() + src.content().len() <= u64::MAX
}

/// No message but the last ends the run, and the last one does.
pub open spec fn ends_once(msgs: Seq<StatusMessage>) -> bool {
    &&& msgs.len() > 0
    &&& msgs.last().terminal()
    &&& forall|i: int| 0 <= i < msgs.len() - 1 ==> !(#[trigger] msgs[i]).terminal()
}

/// None of the messages ends a run.
pub open spec fn none_terminal(msgs: Seq<StatusMessage>) -> bool {
    forall|i: int| 0 <= i < msgs.len() ==> !(#[trigger] msgs[i]).terminal()
}

/// Block size of a standard run, in kibibytes.
pub const BLOCK_KIB: u64 = 512;

/// Blocks between two checkpoints in a standard run.
pub const CHECKPOINT_BLOCKS: usize = 32;

/// Relies on bytesize's `ByteSize::kib` and `ByteSize::as_u64`: `n` kibibytes
/// are `n * 1024` bytes (the product must fit, else it overflows).
#[verifier::external_body]
fn kib(n: u64) -> (r: u64)
    requires
        n <= u64::MAX / 1024,
    ensures
        r == n * 1024,
{
    bytesize::ByteSize::kib(n).as_u64()
}

/// The write phase's checkpoints: see `WriteOp::execute`.
pub open spec fn write_trace(msgs: Seq<StatusMessage>, plan: WorkerPlan, len: nat, base: u64, pt: bool) -> bool {
    &&& checkpoints(msgs, plan.buf_size as nat, plan.checkpoint_period as nat, len, base, pt)
    &&& write_checkpoints(msgs, plan.buf_size as nat, plan.checkpoint_period as nat, len)
}

/// The verify phase's checkpoints, over a source started afresh and a
/// destination holding `avail` bytes: see `VerifyOp::execute`.
pub open spec fn verify_trace(msgs: Seq<StatusMessage>, plan: WorkerPlan, len: nat, pt: bool, avail: nat) -> bool {
    &&& checkpoints(msgs, plan.buf_size as nat, plan.checkpoint_period as nat, len, 0, pt)
    &&& verify_checkpoints(msgs, plan.buf_size as nat, plan.checkpoint_period as nat, len, avail)
}

/// The messages of a run before its terminal one, for a source of `len`
/// decoded bytes: `InitSuccess`, the write checkpoints, then (unless the
/// write failed) one `FinishedWriting`, then the verify checkpoints if asked;
/// `outcome` is what the terminal message reports.
pub open spec fn run_trace(
    msgs: Seq<StatusMessage>,
    plan: WorkerPlan,
    input_file_bytes: u64,
    outcome: Result<(), ErrorType>,
    len: nat,
    base: u64,
    pt: bool,
    avail: nat,
) -> bool {
    let cw = checkpoint_count(len, plan.buf_size as nat, plan.checkpoint_period as nat);
    &&& msgs.len() >= 1
    &&& msgs[0] == StatusMessage::InitSuccess(InitialInfo { input_file_bytes })
    &&& forall|i: int|
        1 <= i < msgs.len() ==> (#[trigger] msgs[i]) is TotalBytes || msgs[i]
            == StatusMessage::FinishedWriting { verifying: plan.verify }
    &&& forall|i: int, j: int|
        1 <= i < msgs.len() && 1 <= j < msgs.len() && (#[trigger] msgs[i]) is FinishedWriting && (
        #[trigger] msgs[j]) is FinishedWriting ==> i == j
    &&& forall|f: int|
        1 <= f < msgs.len() && (#[trigger] msgs[f]) is FinishedWriting ==> {
            &&& write_trace(msgs.subrange(1, f), plan, len, base, pt)
            &&& plan.verify ==> verify_trace(msgs.skip(f + 1), plan, len, pt, avail)
            &&& !plan.verify ==> f == msgs.len() - 1
        }
    &&& (forall|i: int| 1 <= i < msgs.len() ==> (#[trigger] msgs[i]) is TotalBytes) ==> {
        &&& outcome is Err
        &&& write_trace(msgs.skip(1), plan, len, base, pt)
    }
    &&& outcome is Ok ==> {
        &&& msgs.len() > 1 + cw
        &&& msgs[1 + cw as int] == StatusMessage::FinishedWriting { verifying: plan.verify }
        &&& msgs.len() == 2 + cw + if plan.verify {
            cw
        } else {
            0
        }
    }
}

/// What a terminal message reports.
pub open spec fn outcome_of(m: StatusMessage) -> Result<(), ErrorType> {
    match m {
        StatusMessage::Error(e) => Err(e),
        _ => Ok(()),
    }
}

/// The settings of a worker run.
pub struct WorkerPlan {
    pub verify: bool,
    pub buf_size: usize,
    pub checkpoint_period: usize,
}

impl WorkerPlan {
    /// The settings the worker uses: blocks of `BLOCK_KIB` kibibytes and a
    /// checkpoint every `CHECKPOINT_BLOCKS` blocks.
    pub fn standard(verify: bool) -> (r: WorkerPlan)
        ensures
            r.verify == verify,
            r.buf_size == BLOCK_KIB * 1024,
            r.checkpoint_period == CHECKPOINT_BLOCKS,
    {
        let bytes = kib(BLOCK_KIB);
        WorkerPlan { verify, buf_size: bytes as usize, checkpoint_period: CHECKPOINT_BLOCKS }
    }

    /// Runs the phases after opening, reporting all but the terminal message.
    fn phases<S: ByteSource, D: BlockTarget, R: StatusSink>(
        &self,
        src: &mut S,
        dest: &mut D,
        input_file_bytes: u64,
        tx: &mut R,
    ) -> (r: Result<(), ErrorType>)
        requires
            self.buf_size > 0,
            self.checkpoint_period > 0,
            ready(*old(src), *old(dest)),
        ensures
            final(tx).sent().subrange(0, old(tx).sent().len() as int) == old(tx).sent(),
            final(tx).sent().len() > old(tx).sent().len(),
            run_trace(
                final(tx).sent().skip(old(tx).sent().len() as int),
                *self,
                input_file_bytes,
                r,
                old(src).content().len(),
                old(src).consumed(),
                old(src).passthrough(),
                final(dest).data().len(),
            ),
            final(src).content() == old(src).content(),
            final(dest).capacity() == old(dest).capacity(),
            r is Ok ==> final(dest).data() == write_at(
                old(dest).data(),
                old(dest).pos() as int,
                old(src).content(),
            ),
            r is Ok && self.verify ==> old(src).content().len() <= final(dest).data().len()
                && final(dest).data().subrange(0, old(src).content().len() as int) == old(
                src,
            ).content(),
            r == Err::<(), ErrorType>(ErrorType::VerificationFailed) ==> self.verify
                && differs_within(final(dest).data(), 0, old(src).content()),
            old(src).faultless() && old(dest).faultless() && old(dest).pos() == 0 && fits(
                old(dest).capacity(),
                0,
                old(src).content().len(),
            ) ==> r is Ok,
            old(src).faultless() && old(dest).faultless() && !fits(
                old(dest).capacity(),
                old(dest).pos(),
                old(src).content().len(),
            ) ==> {
                &&& r == Err::<(), ErrorType>(ErrorType::EndOfOutput)
                &&& final(dest).capacity() == Some(final(dest).pos())
                &&& final(dest).data() == write_at(
                    old(dest).data(),
                    old(dest).pos() as int,
                    old(src).content().subrange(0, final(dest).pos() - old(dest).pos()),
                )
            },
    {
        let ghost s0 = tx.sent();
        let ghost c = src.content();
        let ghost len = c.len();
        let ghost pt = src.passthrough();
        let ghost base = src.consumed();
        let init = StatusMessage::InitSuccess(InitialInfo { input_file_bytes });
        tx.send(init);
        let ghost s1 = tx.sent();
        let write = WriteOp { buf_size: self.buf_size, checkpoint_period: self.checkpoint_period };
        let written = write.execute(src, dest, tx);
        let ghost s2 = tx.sent();
        let ghost w = s2.skip(s1.len() as int);
        proof {
            assert(s2.subrange(0, s0.len() as int) =~= s0) by {
                assert(s2.subrange(0, s1.len() as int).subrange(0, s0.len() as int) =~= s2.subrange(0, s0.len() as int));
            }
            assert(s2.skip(s0.len() as int) =~= seq![init] + w) by {
                assert(s2.subrange(0, s1.len() as int)[s0.len() as int] == init);
            }
            assert(forall|k: int| 0 <= k < w.len() ==> (#[trigger] w[k]) is TotalBytes) by {
                assert forall|k: int| 0 <= k < w.len() implies (#[trigger] w[k]) is TotalBytes by {
                    assert(crate::engine::reports(w[k], crate::engine::checkpoint_bytes(k as nat, self.buf_size as nat, self.checkpoint_period as nat, len), base, pt));
                }
            }
        }
        match written {
            Ok(()) => {},
            Err(e) => {
                proof {
                    let m = s2.skip(s0.len() as int);
                    assert(m.skip(1) =~= w);
                    assert forall|i: int| 1 <= i < m.len() implies (#[trigger] m[i]) is TotalBytes by {
                        assert(m[i] == w[i - 1]);
                    }
                }
                return Err(e);
            },
        }
        let ghost d1 = dest.data();
        let fw = StatusMessage::FinishedWriting { verifying: self.verify };
        tx.send(fw);
        let ghost s3 = tx.sent();
        let ghost m3 = s3.skip(s0.len() as int);
        proof {
            assert(s3.subrange(0, s0.len() as int) =~= s2.subrange(0, s0.len() as int));
            assert(m3 =~= (seq![init] + w).push(fw));
            let f: int = 1 + w.len() as int;
            assert(m3.subrange(1, f) =~= w);
            assert(m3.skip(f + 1) =~= Seq::<StatusMessage>::empty());
            assert forall|i: int| 1 <= i < m3.len() && (#[trigger] m3[i]) is FinishedWriting implies i == f by {
                if i < f {
                    assert(m3[i] == w[i - 1]);
                }
            }
        }
        if !self.verify {
            return Ok(());
        }
        match src.rewind() {
            Ok(()) => {},
            Err(e) => {
                return Err(e);
            },
        }
        match dest.rewind() {
            Ok(()) => {},
            Err(e) => {
                return Err(e);
            },
        }
        proof {
            lemma_write_then_read(old(dest).data(), old(dest).pos() as int, c);
        }
        let check = VerifyOp { buf_size: self.buf_size, checkpoint_period: self.checkpoint_period };
        let verified = check.execute(src, dest, tx);
        let ghost s4 = tx.sent();
        let ghost v = s4.skip(s3.len() as int);
        proof {
            assert(s4.subrange(0, s0.len() as int) =~= s4.subrange(0, s3.len() as int).subrange(0, s0.len() as int));
            let m4 = s4.skip(s0.len() as int);
            assert(m4 =~= m3 + v) by {
                assert(s4.subrange(0, s3.len() as int).skip(s0.len() as int) =~= m3);
            }
            let f: int = 1 + w.len() as int;
            assert(m4.subrange(1, f) =~= w);
            assert(m4.skip(f + 1) =~= v);
            assert(forall|k: int| 0 <= k < v.len() ==> (#[trigger] v[k]) is TotalBytes) by {
                assert forall|k: int| 0 <= k < v.len() implies (#[trigger] v[k]) is TotalBytes by {
                    assert(crate::engine::reports(v[k], crate::engine::checkpoint_bytes(k as nat, self.buf_size as nat, self.checkpoint_period as nat, len), 0, pt));
                }
            }
            assert forall|i: int| 1 <= i < m4.len() implies (#[trigger] m4[i]) is TotalBytes || m4[i]
                == StatusMessage::FinishedWriting { verifying: self.verify } by {
                if i < f {
                    assert(m4[i] == w[i - 1]);
                } else if i > f {
                    assert(m4[i] == v[i - f - 1]);
                }
            }
            assert forall|i: int| 1 <= i < m4.len() && (#[trigger] m4[i]) is FinishedWriting implies i == f by {
                if i < f {
                    assert(m4[i] == w[i - 1]);
                } else if i > f {
                    assert(m4[i] == v[i - f - 1]);
                }
            }
            assert(m4[f] == fw);
        }
        verified
    }

    /// Runs one worker session on what was opened, or reports why opening
    /// failed, and hands the endpoints back. Exactly one terminal message is
    /// sent, and it is the last: `Success` when every phase succeeded, else
    /// `Error` with the error of the phase that failed.
    pub fn run<S: ByteSource, D: BlockTarget, R: StatusSink>(
        &self,
        opened: Result<Opened<S, D>, ErrorType>,
        tx: &mut R,
    ) -> (r: Option<Opened<S, D>>)
        requires
            self.buf_size > 0,
            self.checkpoint_period > 0,
            opened matches Ok(o) ==> ready(o.src, o.dest),
        ensures
            final(tx).sent().subrange(0, old(tx).sent().len() as int) == old(tx).sent(),
            ends_once(final(tx).sent().skip(old(tx).sent().len() as int)),
            opened matches Err(e) ==> r is None && final(tx).sent().skip(
                old(tx).sent().len() as int,
            ) == seq![StatusMessage::Error(e)],
            opened matches Ok(o) ==> r matches Some(o2) && worker_result(
                *self,
                o,
                o2,
                final(tx).sent().skip(old(tx).sent().len() as int),
            ),
    {
        let ghost s0 = tx.sent();
        match opened {
            Err(e) => {
                tx.send(StatusMessage::Error(e));
                assert(tx.sent().skip(s0.len() as int) =~= seq![StatusMessage::Error(e)]);
                None
            },
            Ok(o) => {
                let ghost o0 = o;
                let Opened { src, dest, input_file_bytes } = o;
                let mut src = src;
                let mut dest = dest;
                let outcome = self.phases(&mut src, &mut dest, input_file_bytes, tx);
                let ghost s1 = tx.sent();
                let ghost out = outcome;
                let last = match outcome {
                    Ok(u) => {
                        assert(out == Ok::<(), ErrorType>(u));
                        assert(u == ());
                        StatusMessage::Success
                    },
                    Err(e) => {
                        assert(out == Err::<(), ErrorType>(e));
                        StatusMessage::Error(e)
                    },
                };
                assert(outcome_of(last) == out);
                let ghost lastg = last;
                tx.send(last);
                let o2 = Opened { src, dest, input_file_bytes };
                proof {
                    let t = tx.sent();
                    let m = t.skip(s0.len() as int);
                    assert(t.subrange(0, s0.len() as int) =~= s1.subrange(0, s0.len() as int));
                    assert(m.drop_last() =~= s1.skip(s0.len() as int));
                    assert(m.last() == lastg);
                    assert(outcome_of(lastg) == out);
                    assert forall|i: int| 0 <= i < m.len() - 1 implies !(#[trigger] m[i]).terminal() by {
                        assert(m[i] == m.drop_last()[i]);
                    }
                }
                Some(o2)
            },
        }
    }
}


/// What a run on endpoints `o` that were opened leaves: the endpoints `o2`
/// and the messages `msgs` of the run. See `WorkerPlan::run`.
pub open spec fn worker_result<S: ByteSource, D: BlockTarget>(
    plan: WorkerPlan,
    o: Opened<S, D>,
    o2: Opened<S, D>,
    msgs: Seq<StatusMessage>,
) -> bool {
    let c = o.src.content();
    let outcome = outcome_of(msgs.last());
    &&& o2.input_file_bytes == o.input_file_bytes
    &&& o2.src.content() == c
    &&& o2.dest.capacity() == o.dest.capacity()
    &&& msgs.len() >= 2
    &&& run_trace(
        msgs.drop_last(),
        plan,
        o.input_file_bytes,
        outcome,
        c.len(),
        o.src.consumed(),
        o.src.passthrough(),
        o2.dest.data().len(),
    )
    &&& outcome is Ok ==> o2.dest.data() == write_at(o.dest.data(), o.dest.pos() as int, c)
    &&& outcome is Ok && plan.verify ==> c.len() <= o2.dest.data().len()
        && o2.dest.data().subrange(0, c.len() as int) == c
    &&& outcome == Err::<(), ErrorType>(ErrorType::VerificationFailed) ==> plan.verify
        && differs_within(o2.dest.data(), 0, c)
    &&& o.src.faultless() && o.dest.faultless() && o.dest.pos() == 0 && fits(
        o.dest.capacity(),
        0,
        c.len(),
    ) ==> msgs.last() == StatusMessage::Success && o2.dest.data() == write_at(
        o.dest.data(),
        0,
        c,
    )
    &&& o.src.faultless() && o.dest.faultless() && !fits(o.dest.capacity(), o.dest.pos(), c.len())
        ==> {
        &&& msgs.last() == StatusMessage::Error(ErrorType::EndOfOutput)
        &&& o2.dest.capacity() == Some(o2.dest.pos())
        &&& o2.dest.data() == write_at(
            o.dest.data(),
            o.dest.pos() as int,
            c.subrange(0, o2.dest.pos() - o.dest.pos()),
        )
    }
}

} // verus!
