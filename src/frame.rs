//! Line framing of the byte stream: each envelope travels as one line, its
//! bytes followed by a newline. A malformed envelope is then one line that
//! can be dropped without disturbing the lines after it, however the bytes
//! were split into reads.

use vstd::prelude::*;

use crate::error::ConnectionError;

verus! {

/// The byte that ends a frame.
pub const NEWLINE: u8 = 10;

/// The longest frame, newline excluded, that the decoder accepts.
pub const MAX_FRAME_LEN: usize = 65536;

/// The complete lines of `s` in order, and the bytes after its last newline.
pub open spec fn split_lines(s: Seq<u8>) -> (Seq<Seq<u8>>, Seq<u8>)
    decreases s.len(),
{
    if s.len() == 0 {
        (Seq::empty(), Seq::empty())
    } else {
        let prev = split_lines(s.drop_last());
        if s.last() == NEWLINE {
            (prev.0.push(prev.1), Seq::empty())
        } else {
            (prev.0, prev.1.push(s.last()))
        }
    }
}

/// The complete frames of the stream `s`.
pub open spec fn frames(s: Seq<u8>) -> Seq<Seq<u8>> {
    split_lines(s).0
}

/// The bytes of `s` that wait for their newline.
pub open spec fn pending(s: Seq<u8>) -> Seq<u8> {
    split_lines(s).1
}

/// `p` holds no newline.
pub open spec fn no_newline(p: Seq<u8>) -> bool {
    forall|i: int| 0 <= i < p.len() ==> #[trigger] p[i] != NEWLINE
}

/// No line of `s`, complete or not, is longer than `MAX_FRAME_LEN`.
pub open spec fn fits(s: Seq<u8>) -> bool {
    &&& forall|i: int| 0 <= i < frames(s).len() ==> #[trigger] frames(s)[i].len() <= MAX_FRAME_LEN
    &&& pending(s).len() <= MAX_FRAME_LEN
}

/// The frame that carries `p`.
pub open spec fn framed(p: Seq<u8>) -> Seq<u8> {
    p.push(NEWLINE)
}

/// The stream that carries the payloads `ps`, one frame each, in order.
pub open spec fn stream_of(ps: Seq<Seq<u8>>) -> Seq<u8>
    decreases ps.len(),
{
    if ps.len() == 0 {
        Seq::empty()
    } else {
        stream_of(ps.drop_last()) + framed(ps.last())
    }
}

/// A payload that can travel as one frame.
pub open spec fn frameable(p: Seq<u8>) -> bool {
    no_newline(p) && p.len() <= MAX_FRAME_LEN
}

proof fn lemma_split_push(s: Seq<u8>, b: u8)
    ensures
        b == NEWLINE ==> frames(s.push(b)) == frames(s).push(pending(s)) && pending(s.push(b))
            == Seq::<u8>::empty(),
        b != NEWLINE ==> frames(s.push(b)) == frames(s) && pending(s.push(b)) == pending(s).push(
            b,
        ),
{
    assert(s.push(b).drop_last() =~= s);
}

proof fn lemma_pending_no_newline(s: Seq<u8>)
    ensures
        no_newline(pending(s)),
    decreases s.len(),
{
    if s.len() > 0 {
        lemma_pending_no_newline(s.drop_last());
        lemma_split_push(s.drop_last(), s.last());
        assert(s.drop_last().push(s.last()) =~= s);
    }
}

proof fn lemma_split_no_newline(p: Seq<u8>)
    requires
        no_newline(p),
    ensures
        frames(p) == Seq::<Seq<u8>>::empty(),
        pending(p) == p,
    decreases p.len(),
{
    if p.len() > 0 {
        let q = p.drop_last();
        assert(no_newline(q)) by {
            assert forall|i: int| 0 <= i < q.len() implies #[trigger] q[i] != NEWLINE by {
                assert(q[i] == p[i]);
            }
        }
        lemma_split_no_newline(q);
        assert(p[p.len() - 1] != NEWLINE);
        lemma_split_push(q, p.last());
        assert(q.push(p.last()) =~= p);
    }
}

proof fn lemma_fits_push(s: Seq<u8>, b: u8)
    ensures
        fits(s.push(b)) <==> fits(s) && (b == NEWLINE || pending(s).len() < MAX_FRAME_LEN),
{
    lemma_split_push(s, b);
    let t = s.push(b);
    if b == NEWLINE {
        if fits(t) {
            assert forall|i: int| 0 <= i < frames(s).len() implies #[trigger] frames(s)[i].len()
                <= MAX_FRAME_LEN by {
                assert(frames(t)[i] == frames(s)[i]);
            }
            assert(frames(t)[frames(s).len() as int] == pending(s));
        }
        if fits(s) {
            assert forall|i: int| 0 <= i < frames(t).len() implies #[trigger] frames(t)[i].len()
                <= MAX_FRAME_LEN by {
                if i < frames(s).len() {
                    assert(frames(t)[i] == frames(s)[i]);
                }
            }
        }
    }
}

/// A stream cut in two pieces is split the same way as a whole: the frames
/// of `a + b` are the frames of `a`, then those of what `a` left pending
/// followed by `b`. So how the bytes were grouped into reads never changes
/// the frames, nor their order.
pub proof fn lemma_split_append(a: Seq<u8>, b: Seq<u8>)
    ensures
        frames(a + b) == frames(a) + frames(pending(a) + b),
        pending(a + b) == pending(pending(a) + b),
    decreases b.len(),
{
    if b.len() == 0 {
        assert(a + b =~= a);
        assert(pending(a) + b =~= pending(a));
        lemma_pending_no_newline(a);
        lemma_split_no_newline(pending(a));
        assert(frames(a) + Seq::<Seq<u8>>::empty() =~= frames(a));
    } else {
        let c = b.drop_last();
        let x = b.last();
        lemma_split_append(a, c);
        assert(a + b =~= (a + c).push(x));
        assert(pending(a) + b =~= (pending(a) + c).push(x));
        lemma_split_push(a + c, x);
        lemma_split_push(pending(a) + c, x);
        if x == NEWLINE {
            assert(frames(a) + frames(pending(a) + c).push(pending(pending(a) + c)) =~= (frames(a)
                + frames(pending(a) + c)).push(pending(pending(a) + c)));
        }
    }
}

/// A stream that fits has every prefix fitting.
pub proof fn lemma_fits_prefix(a: Seq<u8>, b: Seq<u8>)
    requires
        fits(a + b),
    ensures
        fits(a),
    decreases b.len(),
{
    if b.len() == 0 {
        assert(a + b =~= a);
    } else {
        let c = b.drop_last();
        assert(a + b =~= (a + c).push(b.last()));
        lemma_fits_push(a + c, b.last());
        lemma_fits_prefix(a, c);
    }
}

/// Framing round trip: the stream that carries frameable payloads splits
/// back into exactly those payloads, in order, with nothing pending, and
/// the decoder accepts it.
pub proof fn lemma_stream_round_trip(ps: Seq<Seq<u8>>)
    requires
        forall|i: int| 0 <= i < ps.len() ==> frameable(#[trigger] ps[i]),
    ensures
        frames(stream_of(ps)) == ps,
        pending(stream_of(ps)) == Seq::<u8>::empty(),
        fits(stream_of(ps)),
    decreases ps.len(),
{
    if ps.len() > 0 {
        let qs = ps.drop_last();
        let p = ps.last();
        assert(frameable(ps[ps.len() - 1]));
        assert forall|i: int| 0 <= i < qs.len() implies frameable(#[trigger] qs[i]) by {
            assert(qs[i] == ps[i]);
        }
        lemma_stream_round_trip(qs);
        let a = stream_of(qs);
        lemma_split_append(a, framed(p));
        assert(Seq::<u8>::empty() + framed(p) =~= framed(p));
        lemma_split_no_newline(p);
        lemma_split_push(p, NEWLINE);
        assert(Seq::<Seq<u8>>::empty().push(p) =~= seq![p]);
        assert(qs + seq![p] =~= ps);
    }
    let s = stream_of(ps);
    assert forall|i: int| 0 <= i < frames(s).len() implies #[trigger] frames(s)[i].len()
        <= MAX_FRAME_LEN by {
        assert(frameable(ps[i]));
    }
}

/// The frame that carries `payload`, or `ProtocolError` when the payload
/// holds a newline or is longer than `MAX_FRAME_LEN`.
pub fn encode_frame(payload: &[u8]) -> (r: Result<Vec<u8>, ConnectionError>)
    ensures
        frameable(payload@) ==> r is Ok && r->Ok_0@ == framed(payload@),
        !frameable(payload@) ==> r == Err::<Vec<u8>, ConnectionError>(
            ConnectionError::ProtocolError,
        ),
{
    if payload.len() > MAX_FRAME_LEN {
        return Err(ConnectionError::ProtocolError);
    }
    let mut out: Vec<u8> = Vec::new();
    let mut i: usize = 0;
    while i < payload.len()
        invariant
            0 <= i <= payload.len(),
            out@ == payload@.take(i as int),
            no_newline(payload@.take(i as int)),
        decreases payload.len() - i,
    {
        let b = payload[i];
        if b == NEWLINE {
            return Err(ConnectionError::ProtocolError);
        }
        out.push(b);
        i += 1;
        assert(out@ =~= payload@.take(i as int));
        assert(no_newline(payload@.take(i as int))) by {
            assert forall|k: int| 0 <= k < i implies #[trigger] payload@.take(i as int)[k]
                != NEWLINE by {
                if k < i - 1 {
                    assert(payload@.take(i as int)[k] == payload@.take(i - 1)[k]);
                }
            }
        }
    }
    assert(payload@.take(payload.len() as int) =~= payload@);
    out.push(NEWLINE);
    Ok(out)
}

/// Reassembles frames from the bytes of successive reads.
pub struct FrameDecoder {
    buf: Vec<u8>,
}

impl View for FrameDecoder {
    type V = Seq<u8>;

    /// The bytes received after the last newline.
    closed spec fn view(&self) -> Seq<u8> {
        self.buf@
    }
}

impl FrameDecoder {
    /// What was received after the last newline is a line that fits.
    pub open spec fn wf(&self) -> bool {
        frameable(self@)
    }

    /// A decoder that has received nothing.
    pub fn new() -> (r: FrameDecoder)
        ensures
            r@ == Seq::<u8>::empty(),
            r.wf(),
    {
        FrameDecoder { buf: Vec::new() }
    }

    /// Takes the bytes of one read and returns the frames that they
    /// complete, in order, without their newlines. When a line grows past
    /// `MAX_FRAME_LEN` the stream is refused with `ProtocolError`.
    pub fn feed(&mut self, chunk: &[u8]) -> (r: Result<Vec<Vec<u8>>, ConnectionError>)
        requires
            old(self).wf(),
        ensures
            final(self).wf(),
            fits(old(self)@ + chunk@) ==> r is Ok && r->Ok_0.deep_view() == frames(
                old(self)@ + chunk@,
            ) && final(self)@ == pending(old(self)@ + chunk@),
            !fits(old(self)@ + chunk@) ==> r == Err::<Vec<Vec<u8>>, ConnectionError>(
                ConnectionError::ProtocolError,
            ),
    {
        let ghost start = self@;
        let mut lines: Vec<Vec<u8>> = Vec::new();
        let mut i: usize = 0;
        proof {
            lemma_split_no_newline(start);
            assert(start + chunk@.take(0) =~= start);
            assert(lines.deep_view() =~= Seq::<Seq<u8>>::empty());
        }
        while i < chunk.len()
            invariant
                0 <= i <= chunk.len(),
                start == old(self)@,
                self.wf(),
                fits(start + chunk@.take(i as int)),
                lines.deep_view() == frames(start + chunk@.take(i as int)),
                self@ == pending(start + chunk@.take(i as int)),
            decreases chunk.len() - i,
        {
            let b = chunk[i];
            let ghost s = start + chunk@.take(i as int);
            proof {
                assert(start + chunk@.take(i + 1) =~= s.push(b));
                lemma_split_push(s, b);
                lemma_fits_push(s, b);
                lemma_pending_no_newline(s.push(b));
            }
            if b == NEWLINE {
                let mut line: Vec<u8> = Vec::new();
                std::mem::swap(&mut line, &mut self.buf);
                assert(line.deep_view() =~= line@);
                lines.push(line);
                assert(lines.deep_view() =~= frames(s).push(pending(s)));
            } else {
                if self.buf.len() >= MAX_FRAME_LEN {
                    proof {
                        assert(s.push(b) + chunk@.skip(i + 1) =~= start + chunk@);
                        if fits(start + chunk@) {
                            lemma_fits_prefix(s.push(b), chunk@.skip(i + 1));
                        }
                    }
                    return Err(ConnectionError::ProtocolError);
                }
                self.buf.push(b);
            }
            i += 1;
        }
        assert(start + chunk@.take(chunk.len() as int) =~= start + chunk@);
        Ok(lines)
    }
}

} // verus!
