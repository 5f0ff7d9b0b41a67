//! The bounded undo history: a FIFO-evicting stack of buffer snapshots.

use vstd::prelude::*;
use crate::buffer::BufView;
use crate::buffer::PixelBuffer;

verus! {

/// How many snapshots the history retains.
pub const UNDO_DEPTH: usize = 10;

/// Ordered snapshots of the pixel buffer, oldest first, at most
/// [`UNDO_DEPTH`] of them; pushing at capacity evicts the oldest.
pub struct UndoStack {
    pub snaps: Vec<PixelBuffer>,
}

/// One save on the model: append the snapshot, dropping the oldest when
/// the history is full.
pub open spec fn undo_push(s: Seq<BufView>, b: BufView) -> Seq<BufView> {
    if s.len() < UNDO_DEPTH as int {
        s.push(b)
    } else {
        s.subrange(1, s.len() as int).push(b)
    }
}

/// A whole run of saves on the model, oldest first.
pub open spec fn undo_push_all(s: Seq<BufView>, imgs: Seq<BufView>) -> Seq<BufView>
    decreases imgs.len(),
{
    if imgs.len() == 0 {
        s
    } else {
        undo_push_all(undo_push(s, imgs.first()), imgs.drop_first())
    }
}

impl UndoStack {
    /// The history as a sequence of buffer models, oldest first.
    pub open spec fn views(self) -> Seq<BufView> {
        Seq::new(self.snaps.view().len(), |i: int| self.snaps.view()[i].view())
    }

    pub open spec fn wf(self) -> bool {
        &&& self.snaps.view().len() <= UNDO_DEPTH as int
        &&& forall|i: int| 0 <= i < self.snaps.view().len()
            ==> (#[trigger] self.snaps.view()[i]).wf()
    }

    pub fn new() -> (s: UndoStack)
        ensures
            s.wf(),
            s.views() == Seq::<BufView>::empty(),
    {
        let s = UndoStack { snaps: Vec::new() };
        proof {
            assert(s.views() =~= Seq::<BufView>::empty());
        }
        s
    }

    pub fn len(&self) -> (n: usize)
        ensures
            n == self.views().len(),
    {
        self.snaps.len()
    }

    /// Record a snapshot of the buffer, evicting the oldest snapshot when
    /// the history is already at capacity.
    pub fn save(&mut self, buf: &PixelBuffer)
        requires
            old(self).wf(),
            buf.wf(),
        ensures
            final(self).wf(),
            final(self).views() == undo_push(old(self).views(), buf.view()),
    {
        if self.snaps.len() == UNDO_DEPTH {
            self.snaps.remove(0);
        }
        self.snaps.push(buf.duplicate());
        proof {
            assert(self.views() =~= undo_push(old(self).views(), buf.view()));
        }
    }

    /// Take back the most recent snapshot; `None` when the history is
    /// empty (a reported no-op for the caller, not an error).
    pub fn pop(&mut self) -> (r: Option<PixelBuffer>)
        requires
            old(self).wf(),
        ensures
            final(self).wf(),
            old(self).views().len() == 0 ==> r is None && final(self).views()
                == old(self).views(),
            old(self).views().len() > 0 ==> match r {
                Option::Some(b) => b.wf() && b.view() == old(self).views().last()
                    && final(self).views() == old(self).views().drop_last(),
                Option::None => false,
            },
    {
        let r = self.snaps.pop();
        proof {
            if old(self).views().len() == 0 {
                assert(self.views() =~= old(self).views());
            } else {
                assert(self.views() =~= old(self).views().drop_last());
            }
        }
        r
    }
}

/// Undo round-trip: however deep the history already is, saving a
/// snapshot and undoing once gets that snapshot back, byte for byte, and
/// leaves the history as the save found it (minus the evicted snapshot,
/// when the save was made at capacity).
pub proof fn lemma_undo_round_trip(s: Seq<BufView>, img: BufView)
    ensures
        undo_push(s, img).len() > 0,
        undo_push(s, img).last() == img,
        s.len() < UNDO_DEPTH as int ==> undo_push(s, img).drop_last() =~= s,
        s.len() >= UNDO_DEPTH as int ==> undo_push(s, img).drop_last() =~= s.subrange(
            1, s.len() as int),
{
}

/// Undo bound: a run of saves leaves exactly the most recent
/// [`UNDO_DEPTH`] snapshots, so after more than that many saves the
/// oldest states are no longer recoverable.
pub proof fn lemma_undo_bound(s: Seq<BufView>, imgs: Seq<BufView>)
    requires
        s.len() <= UNDO_DEPTH as int,
    ensures
        undo_push_all(s, imgs).len() == (if s.len() + imgs.len() <= UNDO_DEPTH as int {
            s.len() + imgs.len()
        } else {
            UNDO_DEPTH as nat
        }),
        undo_push_all(s, imgs) =~= (s + imgs).skip(
            if s.len() + imgs.len() > UNDO_DEPTH as int {
                s.len() + imgs.len() - UNDO_DEPTH as int
            } else {
                0
            },
        ),
    decreases imgs.len(),
{
    if imgs.len() == 0 {
        assert((s + imgs).skip(0) =~= s);
    } else {
        let s1 = undo_push(s, imgs.first());
        lemma_undo_bound(s1, imgs.drop_first());
        assert(s1 + imgs.drop_first() =~= (if s.len() < UNDO_DEPTH as int {
            s + imgs
        } else {
            (s + imgs).skip(1)
        }));
        if s.len() < UNDO_DEPTH as int {
        } else {
            assert(undo_push_all(s, imgs) =~= (s + imgs).skip(
                if s.len() + imgs.len() > UNDO_DEPTH as int {
                    s.len() + imgs.len() - UNDO_DEPTH as int
                } else {
                    0
                },
            ));
        }
    }
}

/// Eleven saves onto an empty history keep only the last ten: the first
/// saved state has been evicted.
pub proof fn lemma_undo_bound_eleven(imgs: Seq<BufView>)
    requires
        imgs.len() == UNDO_DEPTH as int + 1,
    ensures
        undo_push_all(Seq::<BufView>::empty(), imgs) =~= imgs.skip(1),
{
    lemma_undo_bound(Seq::<BufView>::empty(), imgs);
    assert((Seq::<BufView>::empty() + imgs) =~= imgs);
    assert((Seq::<BufView>::empty() + imgs).skip(1) =~= imgs.skip(1));
}

} // verus!
