//! Sequence numbers of encoded frames, and the read cursor each session
//! keeps so that it never forwards a frame twice or out of order.
use vstd::prelude::*;

verus! {

/// A compressed frame and its place in the capture order.
pub struct EncodedFrame {
    pub seq: u64,
    pub data: Vec<u8>,
}

/// Hands out strictly increasing sequence numbers to published frames.
pub struct FrameSequencer {
    pub next: u64,
}

impl FrameSequencer {
    pub fn new() -> (r: FrameSequencer)
        ensures
            r.next == 0,
    {
        FrameSequencer { next: 0 }
    }

    /// Stamps a frame with the next number, or gives `None` once the
    /// numbers are used up.
    pub fn stamp(&mut self, data: Vec<u8>) -> (r: Option<EncodedFrame>)
        ensures
            old(self).next < u64::MAX ==> r == Some(EncodedFrame { seq: old(self).next, data })
                && final(self).next == old(self).next + 1,
            old(self).next == u64::MAX ==> r is None && final(self).next == old(self).next,
    {
        if self.next == u64::MAX {
            None
        } else {
            let seq = self.next;
            self.next = self.next + 1;
            Some(EncodedFrame { seq, data })
        }
    }
}

/// Whether a session whose last forwarded frame was `last` forwards the
/// frame numbered `seq`.
pub open spec fn admits(last: Option<u64>, seq: u64) -> bool {
    match last {
        None => true,
        Some(l) => l < seq,
    }
}

/// A session's read position on the frame bus.
pub struct FrameCursor {
    pub last: Option<u64>,
}

impl FrameCursor {
    pub fn new() -> (r: FrameCursor)
        ensures
            r.last is None,
    {
        FrameCursor { last: None }
    }

    /// Decides whether the frame numbered `seq` goes out, and moves the
    /// cursor past it if so. Frames skipped while the session lagged leave
    /// gaps; repeated or older numbers are refused.
    pub fn accept(&mut self, seq: u64) -> (r: bool)
        ensures
            r == admits(old(self).last, seq),
            final(self).last == (if r { Some(seq) } else { old(self).last }),
    {
        let ok = match self.last {
            None => true,
            Some(l) => l < seq,
        };
        if ok {
            self.last = Some(seq);
        }
        ok
    }
}

/// The cursor position after offering `offered` in turn, starting at `start`.
pub open spec fn cursor_after(start: Option<u64>, offered: Seq<u64>) -> Option<u64>
    decreases offered.len(),
{
    if offered.len() == 0 {
        start
    } else {
        let before = cursor_after(start, offered.drop_last());
        if admits(before, offered.last()) {
            Some(offered.last())
        } else {
            before
        }
    }
}

/// The frames a cursor at `start` forwards when `offered` arrive in turn.
pub open spec fn forwarded(start: Option<u64>, offered: Seq<u64>) -> Seq<u64>
    decreases offered.len(),
{
    if offered.len() == 0 {
        Seq::empty()
    } else {
        let before = forwarded(start, offered.drop_last());
        if admits(cursor_after(start, offered.drop_last()), offered.last()) {
            before.push(offered.last())
        } else {
            before
        }
    }
}

/// Whatever order frames reach a session in, the numbers it forwards are
/// strictly increasing (so never repeated), all past its starting point,
/// and the last of them is where its cursor stands.
pub proof fn lemma_forwarded_increasing(start: Option<u64>, offered: Seq<u64>)
    ensures
        forall|i: int, j: int|
            0 <= i < j < forwarded(start, offered).len() ==> forwarded(start, offered)[i] < forwarded(
                start,
                offered,
            )[j],
        forall|i: int| 0 <= i < forwarded(start, offered).len() ==> admits(start, #[trigger] forwarded(start, offered)[i]),
        forwarded(start, offered).len() > 0 ==> cursor_after(start, offered) == Some(
            forwarded(start, offered).last(),
        ),
        forwarded(start, offered).len() == 0 ==> cursor_after(start, offered) == start,
    decreases offered.len(),
{
    if offered.len() > 0 {
        lemma_forwarded_increasing(start, offered.drop_last());
    }
}

} // verus!
