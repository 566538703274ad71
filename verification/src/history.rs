use vstd::prelude::*;
use crate::cell::Cell;

verus! {

/// The stack of board snapshots taken before each attempted move,
/// most recent last.
pub struct HistoryStack {
    snapshots: Vec<Vec<Cell>>,
}

impl View for HistoryStack {
    type V = Seq<Seq<Cell>>;

    closed spec fn view(&self) -> Seq<Seq<Cell>> {
        self.snapshots@.map_values(|v: Vec<Cell>| v@)
    }
}

impl HistoryStack {
    pub fn new() -> (r: HistoryStack)
        ensures
            r@ == Seq::<Seq<Cell>>::empty(),
    {
        let r = HistoryStack { snapshots: Vec::new() };
        proof {
            assert(r@ =~= Seq::<Seq<Cell>>::empty());
        }
        r
    }

    pub fn len(&self) -> (r: usize)
        ensures
            r == self@.len(),
    {
        self.snapshots.len()
    }

    /// Record a snapshot on top of the stack.
    pub fn push(&mut self, snapshot: Vec<Cell>)
        ensures
            final(self)@ == old(self)@.push(snapshot@),
    {
        self.snapshots.push(snapshot);
        proof {
            assert(self@ =~= old(self)@.push(snapshot@));
        }
    }

    /// Take the most recent snapshot off the stack, if any exists.
    pub fn pop(&mut self) -> (r: Option<Vec<Cell>>)
        ensures
            old(self)@.len() == 0 ==> r is None && final(self)@ == old(self)@,
            old(self)@.len() > 0 ==> (r matches Some(s) && s@ == old(self)@.last()
                && final(self)@ == old(self)@.drop_last()),
    {
        let r = self.snapshots.pop();
        proof {
            if old(self)@.len() == 0 {
                assert(self@ =~= old(self)@);
            } else {
                assert(self@ =~= old(self)@.drop_last());
            }
        }
        r
    }
}

/// Undoing right after recording a snapshot restores exactly that snapshot
/// and leaves the earlier history as it was: what a pop returns after a push
/// is the pushed snapshot, and the stack shrinks back to what it had been.
pub proof fn lemma_undo_restores(history: Seq<Seq<Cell>>, snapshot: Seq<Cell>)
    ensures
        history.push(snapshot).last() == snapshot,
        history.push(snapshot).drop_last() == history,
{
    assert(history.push(snapshot).drop_last() =~= history);
}

} // verus!
