//! Coalescing raw file-change notifications into a once-per-frame set.
//!
//! Notifications arrive asynchronously from a file-watch facility outside
//! the library and are handed in one path at a time. The debouncer
//! accumulates them as a set - noting the same path twice within one frame
//! changes nothing - and the frame loop drains the whole set in one
//! non-blocking step: if nothing arrived, the drained set is simply empty,
//! and no change is ever lost.

use vstd::prelude::*;

verus! {

/// The set of paths noted so far, as views, after noting `p` on top of `s`:
/// `s` itself when `p` is already present, `s` extended by `p` otherwise.
pub open spec fn note_spec(s: Seq<Seq<char>>, p: Seq<char>) -> Seq<Seq<char>> {
    if s.contains(p) {
        s
    } else {
        s.push(p)
    }
}

/// Noting a path a second time within the same frame changes nothing:
/// however often a change is reported, the drained set carries it once.
pub proof fn lemma_note_idempotent(s: Seq<Seq<char>>, p: Seq<char>)
    ensures
        note_spec(note_spec(s, p), p) == note_spec(s, p),
{
    if !s.contains(p) {
        assert(s.push(p)[s.len() as int] == p);
    }
}

/// The per-frame buffer of changed paths, kept free of duplicates.
pub struct Debouncer {
    pending: Vec<String>,
}

impl Debouncer {
    /// The paths noted since the last drain, in first-noted order.
    pub closed spec fn pending_paths(self) -> Seq<Seq<char>> {
        self.pending@.map_values(|s: String| s@)
    }

    /// No path is held twice.
    pub closed spec fn wf(self) -> bool {
        forall|a: int, b: int|
            0 <= a < b < self.pending_paths().len() ==> self.pending_paths()[a]
                != self.pending_paths()[b]
    }

    /// An empty buffer.
    pub fn new() -> (d: Debouncer)
        ensures
            d.wf(),
            d.pending_paths() == Seq::<Seq<char>>::empty(),
    {
        let d = Debouncer { pending: Vec::new() };
        proof {
            assert(d.pending_paths() =~= Seq::<Seq<char>>::empty());
        }
        d
    }

    /// Note one raw change notification. Union, not overwrite: a path never
    /// seen this frame is added, a repeated one is dropped.
    pub fn note(&mut self, path: String)
        requires
            old(self).wf(),
        ensures
            final(self).wf(),
            final(self).pending_paths() == note_spec(old(self).pending_paths(), path@),
    {
        let n = self.pending.len();
        let mut k: usize = 0;
        while k < n
            invariant
                self.pending@ == old(self).pending@,
                old(self).wf(),
                n == self.pending@.len(),
                0 <= k <= n,
                forall|j: int| 0 <= j < k ==> (#[trigger] self.pending@[j])@ != path@,
            decreases n - k,
        {
            if self.pending[k] == path {
                proof {
                    assert(self.pending_paths()[k as int] == path@);
                    assert(self.pending_paths().contains(path@));
                }
                return ;
            }
            k += 1;
        }
        proof {
            assert forall|j: int|
                0 <= j < self.pending_paths().len() implies self.pending_paths()[j] != path@ by {}
            assert(!self.pending_paths().contains(path@));
        }
        let ghost prev_paths = self.pending_paths();
        self.pending.push(path);
        proof {
            assert(self.pending_paths() =~= prev_paths.push(path@));
        }
    }

    /// Drain the frame's set: hand back every path noted since the last
    /// drain and leave the buffer empty. Non-blocking by construction - with
    /// nothing noted, the result is empty.
    pub fn drain(&mut self) -> (r: Vec<String>)
        requires
            old(self).wf(),
        ensures
            final(self).wf(),
            final(self).pending_paths() == Seq::<Seq<char>>::empty(),
            r@.map_values(|s: String| s@) == old(self).pending_paths(),
            forall|a: int, b: int|
                0 <= a < b < r@.len() ==> (#[trigger] r@[a])@ != (#[trigger] r@[b])@,
    {
        let mut drained: Vec<String> = Vec::new();
        core::mem::swap(&mut drained, &mut self.pending);
        proof {
            assert(self.pending_paths() =~= Seq::<Seq<char>>::empty());
            assert forall|a: int, b: int| 0 <= a < b < drained@.len() implies (
            #[trigger] drained@[a])@ != (#[trigger] drained@[b])@ by {
                assert(old(self).pending_paths()[a] == drained@[a]@);
                assert(old(self).pending_paths()[b] == drained@[b]@);
            }
        }
        drained
    }
}

} // verus!
