//! The undo and redo stacks: whole-buffer snapshots, at most 25 deep.

use vstd::prelude::*;
use crate::raster::{Raster, RasterBuffer};

verus! {

/// The most snapshots that the undo stack keeps.
pub const HISTORY_DEPTH: usize = 25;

/// The mathematical value of a history: its two stacks, the newest snapshot
/// last in each.
#[verifier::ext_equal]
pub struct HistoryView {
    pub undo: Seq<Raster>,
    pub redo: Seq<Raster>,
}

impl HistoryView {
    /// The history without snapshots.
    pub open spec fn empty() -> HistoryView {
        HistoryView { undo: Seq::empty(), redo: Seq::empty() }
    }

    /// Both stacks together hold at most 25 snapshots, so neither holds more.
    pub open spec fn wf(self) -> bool {
        self.undo.len() + self.redo.len() <= HISTORY_DEPTH
    }

    /// The history after a snapshot of `current` has been taken: the
    /// snapshot is pushed on the undo stack, the oldest entry leaves when
    /// the stack would grow beyond 25, and the redo stack is emptied.
    pub open spec fn snapshotted(self, current: Raster) -> HistoryView {
        let pushed = self.undo.push(current);
        HistoryView {
            undo: if pushed.len() > HISTORY_DEPTH { pushed.subrange(1, pushed.len() as int) } else { pushed },
            redo: Seq::empty(),
        }
    }

    /// The history and the buffer after one undo. Nothing changes when the
    /// undo stack is empty.
    pub open spec fn undone(self, current: Raster) -> (HistoryView, Raster) {
        if self.undo.len() > 0 {
            (
                HistoryView { undo: self.undo.drop_last(), redo: self.redo.push(current) },
                self.undo.last(),
            )
        } else {
            (self, current)
        }
    }

    /// The history and the buffer after one redo. Nothing changes when the
    /// redo stack is empty.
    pub open spec fn redone(self, current: Raster) -> (HistoryView, Raster) {
        if self.redo.len() > 0 {
            (
                HistoryView { undo: self.undo.push(current), redo: self.redo.drop_last() },
                self.redo.last(),
            )
        } else {
            (self, current)
        }
    }

    /// The history and the buffer after `n` undos.
    pub open spec fn undone_times(self, current: Raster, n: nat) -> (HistoryView, Raster)
        decreases n,
    {
        if n == 0 {
            (self, current)
        } else {
            let (h, c) = self.undone_times(current, (n - 1) as nat);
            h.undone(c)
        }
    }

    /// The history and the buffer after `n` redos.
    pub open spec fn redone_times(self, current: Raster, n: nat) -> (HistoryView, Raster)
        decreases n,
    {
        if n == 0 {
            (self, current)
        } else {
            let (h, c) = self.redone(current);
            h.redone_times(c, (n - 1) as nat)
        }
    }

    /// A redo takes back an undo.
    pub proof fn lemma_redo_after_undo(self, current: Raster)
        requires
            self.undo.len() > 0,
        ensures
            self.undone(current).0.redone(self.undone(current).1) == (self, current),
    {
        let (h, c) = self.undone(current);
        assert(h.redo.drop_last() =~= self.redo);
        assert(h.undo.push(c) =~= self.undo);
        assert(h.redone(c).0 =~= self);
    }

    /// An undo takes back a redo.
    pub proof fn lemma_undo_after_redo(self, current: Raster)
        requires
            self.redo.len() > 0,
        ensures
            self.redone(current).0.undone(self.redone(current).1) == (self, current),
    {
        let (h, c) = self.redone(current);
        assert(h.undo.drop_last() =~= self.undo);
        assert(h.redo.push(c) =~= self.redo);
        assert(h.undone(c).0 =~= self);
    }

    /// Each of `n` undos finds a snapshot while the stack holds at least `n`,
    /// and moves it to the redo stack.
    pub proof fn lemma_undone_times_len(self, current: Raster, n: nat)
        requires
            n <= self.undo.len(),
        ensures
            self.undone_times(current, n).0.undo.len() == self.undo.len() - n,
            self.undone_times(current, n).0.redo.len() == self.redo.len() + n,
        decreases n,
    {
        if n > 0 {
            self.lemma_undone_times_len(current, (n - 1) as nat);
        }
    }

    /// As many undos as the undo stack has snapshots, or fewer, followed by
    /// as many redos, give back the history and the buffer they started
    /// from, pixel for pixel.
    pub proof fn lemma_undo_redo_round_trip(self, current: Raster, n: nat)
        requires
            n <= self.undo.len(),
        ensures
            ({
                let (h, c) = self.undone_times(current, n);
                h.redone_times(c, n) == (self, current)
            }),
        decreases n,
    {
        if n > 0 {
            let (h1, c1) = self.undone_times(current, (n - 1) as nat);
            self.lemma_undone_times_len(current, (n - 1) as nat);
            self.lemma_undo_redo_round_trip(current, (n - 1) as nat);
            h1.lemma_redo_after_undo(c1);
        }
    }

    /// A snapshot leaves at most 25 entries on the undo stack and none on
    /// the redo stack, whatever the history held before.
    pub proof fn lemma_snapshot_bounded(self, current: Raster)
        requires
            self.undo.len() <= HISTORY_DEPTH,
        ensures
            self.snapshotted(current).wf(),
            self.snapshotted(current).redo.len() == 0,
            self.snapshotted(current).undo.len() <= HISTORY_DEPTH,
            self.snapshotted(current).undo.last() == current,
    {
    }

    /// Undo and redo move snapshots between the stacks: they keep their sum.
    pub proof fn lemma_undo_redo_bounded(self, current: Raster)
        requires
            self.wf(),
        ensures
            self.undone(current).0.wf(),
            self.redone(current).0.wf(),
    {
    }
}

/// The values of a stack of buffers.
pub open spec fn stack_view(stack: Seq<RasterBuffer>) -> Seq<Raster> {
    Seq::new(stack.len(), |i: int| stack[i]@)
}

/// The bounded undo and redo stacks of one canvas.
pub struct History {
    undo: Vec<RasterBuffer>,
    redo: Vec<RasterBuffer>,
}

impl View for History {
    type V = HistoryView;

    closed spec fn view(&self) -> HistoryView {
        HistoryView { undo: stack_view(self.undo@), redo: stack_view(self.redo@) }
    }
}

impl History {
    /// A history without snapshots.
    pub fn new() -> (h: History)
        ensures
            h@ == HistoryView::empty(),
    {
        let h = History { undo: Vec::new(), redo: Vec::new() };
        assert(h@ =~= HistoryView::empty());
        h
    }

    /// The number of snapshots that can be undone.
    pub fn undo_depth(&self) -> (n: usize)
        ensures
            n == self@.undo.len(),
    {
        self.undo.len()
    }

    /// The number of snapshots that can be redone.
    pub fn redo_depth(&self) -> (n: usize)
        ensures
            n == self@.redo.len(),
    {
        self.redo.len()
    }

    /// Takes a snapshot of `current` before it is changed: pushes a copy on
    /// the undo stack, drops the oldest entry when the stack would grow
    /// beyond 25, and empties the redo stack.
    pub fn snapshot(&mut self, current: &RasterBuffer)
        ensures
            final(self)@ == old(self)@.snapshotted(current@),
            old(self)@.wf() ==> final(self)@.wf(),
    {
        self.undo.push(current.duplicate());
        assert(stack_view(self.undo@) =~= old(self)@.undo.push(current@));
        if self.undo.len() > HISTORY_DEPTH {
            let ghost before = self.undo@;
            let _ = self.undo.remove(0);
            assert(stack_view(self.undo@) =~= stack_view(before).subrange(1, before.len() as int));
        }
        self.redo.clear();
        assert(self@ =~= old(self)@.snapshotted(current@));
    }

    /// Goes one snapshot back: `current` moves to the redo stack and the
    /// newest snapshot of the undo stack takes its place. Says whether there
    /// was a snapshot; without one nothing changes.
    pub fn undo(&mut self, current: &mut RasterBuffer) -> (changed: bool)
        ensures
            (final(self)@, final(current)@) == old(self)@.undone(old(current)@),
            changed == (old(self)@.undo.len() > 0),
            old(self)@.wf() ==> final(self)@.wf(),
    {
        match self.undo.pop() {
            Some(previous) => {
                let mut taken = previous;
                core::mem::swap(current, &mut taken);
                self.redo.push(taken);
                assert(self@ =~= old(self)@.undone(old(current)@).0);
                true
            },
            None => false,
        }
    }

    /// Goes one snapshot forward again: `current` moves to the undo stack
    /// and the newest snapshot of the redo stack takes its place. Says
    /// whether there was a snapshot; without one nothing changes.
    pub fn redo(&mut self, current: &mut RasterBuffer) -> (changed: bool)
        ensures
            (final(self)@, final(current)@) == old(self)@.redone(old(current)@),
            changed == (old(self)@.redo.len() > 0),
            old(self)@.wf() ==> final(self)@.wf(),
    {
        match self.redo.pop() {
            Some(next) => {
                let mut taken = next;
                core::mem::swap(current, &mut taken);
                self.undo.push(taken);
                assert(self@ =~= old(self)@.redone(old(current)@).0);
                true
            },
            None => false,
        }
    }
}

} // verus!
