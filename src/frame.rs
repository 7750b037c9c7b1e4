//! Newline framing of status records: each record is its payload followed by
//! one newline byte, and a payload never holds a newline itself.
use vstd::prelude::*;

verus! {

/// The byte that ends each record.
pub const NEWLINE: u8 = 10;

/// A payload that can be framed: it holds no newline byte.
pub open spec fn newline_free(s: Seq<u8>) -> bool {
    forall|i: int| 0 <= i < s.len() ==> s[i] != NEWLINE
}

/// Every payload of the list can be framed.
pub open spec fn all_newline_free(ps: Seq<Seq<u8>>) -> bool {
    forall|k: int| 0 <= k < ps.len() ==> newline_free(#[trigger] ps[k])
}

/// The bytes of the payloads sent back to back, each ended by a newline.
pub open spec fn framed(ps: Seq<Seq<u8>>) -> Seq<u8>
    decreases ps.len(),
{
    if ps.len() == 0 {
        Seq::empty()
    } else {
        framed(ps.drop_last()) + ps.last().push(NEWLINE)
    }
}

proof fn lemma_framed_ends_in_newline(ps: Seq<Seq<u8>>)
    ensures
        ps.len() == 0 <==> framed(ps).len() == 0,
        ps.len() > 0 ==> framed(ps).last() == NEWLINE,
{
}

/// Two lists of payloads that frame to the same bytes are the same list.
pub proof fn lemma_framing_unique(a: Seq<Seq<u8>>, b: Seq<Seq<u8>>)
    requires
        all_newline_free(a),
        all_newline_free(b),
        framed(a) == framed(b),
    ensures
        a == b,
    decreases a.len(),
{
    lemma_framed_ends_in_newline(a);
    lemma_framed_ends_in_newline(b);
    if a.len() > 0 {
        let (a0, b0) = (a.drop_last(), b.drop_last());
        let (x, y) = (a.last(), b.last());
        let (fa, fb) = (framed(a0), framed(b0));
        let s = framed(a);
        assert(newline_free(x) && newline_free(y)) by {
            assert(a[a.len() - 1] == x);
            assert(b[b.len() - 1] == y);
        }
        lemma_framed_ends_in_newline(a0);
        lemma_framed_ends_in_newline(b0);
        assert(s == fa + x.push(NEWLINE));
        assert(s == fb + y.push(NEWLINE));
        if x.len() < y.len() {
            let j = s.len() - 2 - x.len();
            if fa.len() == 0 {
                assert(false);
            } else {
                assert(s[j] == fa[fa.len() - 1]);
                assert(s[j] == y[j - fb.len()]);
            }
        } else if y.len() < x.len() {
            let j = s.len() - 2 - y.len();
            if fb.len() == 0 {
                assert(false);
            } else {
                assert(s[j] == fb[fb.len() - 1]);
                assert(s[j] == x[j - fa.len()]);
            }
        }
        assert(x =~= y) by {
            assert forall|i: int| 0 <= i < x.len() implies x[i] == y[i] by {
                assert(s[fa.len() + i] == x[i]);
                assert(s[fb.len() + i] == y[i]);
            }
        }
        assert(fa =~= fb) by {
            assert forall|i: int| 0 <= i < fa.len() implies fa[i] == fb[i] by {
                assert(s[i] == fa[i]);
                assert(s[i] == fb[i]);
            }
        }
        assert(all_newline_free(a0)) by {
            assert forall|k: int| 0 <= k < a0.len() implies newline_free(#[trigger] a0[k]) by {
                assert(a0[k] == a[k]);
            }
        }
        assert(all_newline_free(b0)) by {
            assert forall|k: int| 0 <= k < b0.len() implies newline_free(#[trigger] b0[k]) by {
                assert(b0[k] == b[k]);
            }
        }
        lemma_framing_unique(a0, b0);
        assert(a =~= b0.push(y));
        assert(b =~= b0.push(y));
    }
}

/// Framed payloads sent back to back are read back as the same payloads, as
/// many and in the same order, with nothing left over: any split of the stream
/// into framed payloads and an unfinished tail, as `split_frames` returns it,
/// is the one the sender framed.
pub proof fn lemma_frames_round_trip(sent: Seq<Seq<u8>>, got: Seq<Seq<u8>>, end: int)
    requires
        all_newline_free(sent),
        all_newline_free(got),
        0 <= end <= framed(sent).len(),
        framed(got) == framed(sent).subrange(0, end),
        newline_free(framed(sent).subrange(end, framed(sent).len() as int)),
    ensures
        got == sent,
        end == framed(sent).len(),
{
    let s = framed(sent);
    lemma_framed_ends_in_newline(sent);
    if end < s.len() {
        assert(s.subrange(end, s.len() as int)[s.len() - 1 - end] == s[s.len() - 1]);
    }
    assert(s.subrange(0, end) =~= s);
    lemma_framing_unique(got, sent);
}

/// The contents of a list of byte vectors.
pub open spec fn payloads(v: Seq<Vec<u8>>) -> Seq<Seq<u8>> {
    v.map_values(|x: Vec<u8>| x@)
}

/// Appends one record to `out`, unless `payload` holds a newline.
pub fn push_frame(out: &mut Vec<u8>, payload: &Vec<u8>) -> (ok: bool)
    ensures
        ok == newline_free(payload@),
        ok ==> final(out)@ == old(out)@ + payload@.push(NEWLINE),
        !ok ==> final(out)@ == old(out)@,
{
    let mut i: usize = 0;
    while i < payload.len()
        invariant
            i <= payload.len(),
            forall|j: int| 0 <= j < i ==> payload@[j] != NEWLINE,
        decreases payload.len() - i,
    {
        if payload[i] == NEWLINE {
            return false;
        }
        i += 1;
    }
    let ghost start = out@;
    let mut k: usize = 0;
    while k < payload.len()
        invariant
            k <= payload.len(),
            out@ == start + payload@.subrange(0, k as int),
        decreases payload.len() - k,
    {
        out.push(payload[k]);
        k += 1;
        assert(out@ =~= start + payload@.subrange(0, k as int));
    }
    out.push(NEWLINE);
    assert(payload@.subrange(0, payload.len() as int) =~= payload@);
    assert(out@ =~= start + payload@.push(NEWLINE));
    true
}

/// Splits received bytes into the complete records they hold. Returns the
/// payloads, in order, and the offset where the unfinished tail starts.
pub fn split_frames(s: &Vec<u8>) -> (r: (Vec<Vec<u8>>, usize))
    ensures
        r.1 <= s.len(),
        all_newline_free(payloads(r.0@)),
        framed(payloads(r.0@)) == s@.subrange(0, r.1 as int),
        newline_free(s@.subrange(r.1 as int, s.len() as int)),
{
    let mut frames: Vec<Vec<u8>> = Vec::new();
    let mut cur: Vec<u8> = Vec::new();
    let mut start: usize = 0;
    let mut i: usize = 0;
    while i < s.len()
        invariant
            start <= i <= s.len(),
            all_newline_free(payloads(frames@)),
            framed(payloads(frames@)) == s@.subrange(0, start as int),
            cur@ == s@.subrange(start as int, i as int),
            newline_free(cur@),
        decreases s.len() - i,
    {
        if s[i] == NEWLINE {
            let ghost before = payloads(frames@);
            let ghost c = cur@;
            frames.push(cur);
            cur = Vec::new();
            assert(payloads(frames@) =~= before.push(c));
            assert(payloads(frames@).drop_last() =~= before);
            assert(s@.subrange(0, i + 1) =~= s@.subrange(0, start as int) + c.push(NEWLINE));
            start = i + 1;
        } else {
            cur.push(s[i]);
        }
        i += 1;
        assert(cur@ =~= s@.subrange(start as int, i as int));
    }
    (frames, start)
}

} // verus!
