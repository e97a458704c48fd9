//! One-shot, non-restartable traversal over the non-zero bins of a store.
//!
//! The iterator is constructed from an already-ordered snapshot of
//! `(index, cell)` pairs; `next` hands the pairs out one at a time and
//! never restarts.

use vstd::prelude::*;

verus! {

/// Finite, one-shot cursor over a snapshot of `(index, cell)` pairs.
pub struct StoreIter {
    /// The snapshot taken at construction time.
    pub pairs: Vec<(i32, u64)>,
    /// How many pairs have been handed out already.
    pub position: usize,
}

impl StoreIter {
    pub open spec fn wf(self) -> bool {
        self.position <= self.pairs@.len()
    }

    /// The pairs not yet handed out, in the order they will come.
    pub open spec fn remaining(self) -> Seq<(i32, u64)> {
        self.pairs@.skip(self.position as int)
    }

    /// Start a traversal over `pairs`, in their given order.
    pub fn new(pairs: Vec<(i32, u64)>) -> (it: Self)
        ensures
            it.wf(),
            it.remaining() == pairs@,
    {
        let it = StoreIter { pairs, position: 0 };
        proof {
            assert(it.remaining() =~= it.pairs@);
        }
        it
    }

    /// The next pair, or `None` once the snapshot is exhausted.
    pub fn next(&mut self) -> (bin: Option<(i32, u64)>)
        requires
            old(self).wf(),
        ensures
            final(self).wf(),
            old(self).remaining().len() == 0 ==> bin is None && final(self).remaining() == old(
                self).remaining(),
            old(self).remaining().len() > 0 ==> bin == Some(old(self).remaining()[0]) && final(
                self).remaining() == old(self).remaining().drop_first(),
    {
        if self.position < self.pairs.len() {
            let bin = self.pairs[self.position];
            self.position = self.position + 1;
            proof {
                assert(self.remaining() =~= old(self).remaining().drop_first());
            }
            Some(bin)
        } else {
            proof {
                assert(self.remaining() =~= old(self).remaining());
            }
            None
        }
    }
}

} // verus!
