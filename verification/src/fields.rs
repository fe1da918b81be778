//! Double-buffered simulation fields and the resource swap pool.
//!
//! A `FieldBuffer` owns a pair of interchangeable GPU storage resources for
//! one simulated quantity. A single parity bit selects which half is
//! currently readable (`current`) and which is writable (`next`); a completed
//! write stage flips the parity. Representing the pair as two fixed slots
//! plus a parity bit makes a dangling or aliased swap impossible: the
//! underlying resource names never move, only the selecting bit changes.
//!
//! The `SwapPool` gathers every field of the simulation and keeps all their
//! resources pairwise distinct, so that no two bindings anywhere in a frame
//! can collide on one physical resource.

use vstd::prelude::*;

verus! {

/// One double-buffered simulated quantity: two fixed GPU resource names and
/// the parity bit choosing their roles. Mutated only through `swap`, which
/// keeps `wf`.
#[derive(Clone, Copy, Debug, PartialEq, Eq, Structural)]
pub struct FieldBuffer {
    pub front: u32,
    pub back: u32,
    pub parity: bool,
}

/// The parity that results from `n` completed write stages starting at `p`:
/// unchanged when `n` is even, flipped when `n` is odd.
pub open spec fn parity_after(p: bool, n: nat) -> bool {
    if n % 2 == 0 {
        p
    } else {
        !p
    }
}

impl FieldBuffer {
    /// The two halves are distinct physical resources.
    pub open spec fn wf(self) -> bool {
        self.front != self.back
    }

    /// The read-safe resource for the present parity.
    pub open spec fn current_id(self) -> u32 {
        if self.parity {
            self.back
        } else {
            self.front
        }
    }

    /// The write-safe resource for the present parity.
    pub open spec fn next_id(self) -> u32 {
        if self.parity {
            self.front
        } else {
            self.back
        }
    }

    /// The same field with its parity flipped: what one completed write
    /// stage leaves behind.
    pub open spec fn flipped(self) -> FieldBuffer {
        FieldBuffer { front: self.front, back: self.back, parity: !self.parity }
    }

    /// Wrap an already-created pair of storage resources as one field.
    /// Creation of the resources themselves (shape, format, neutral fill,
    /// clamped edge sampling) happens outside the library; the pair enters
    /// here with parity zero, so `front` starts readable and `back` writable.
    pub fn new(front: u32, back: u32) -> (f: FieldBuffer)
        requires
            front != back,
        ensures
            f == (FieldBuffer { front, back, parity: false }),
            f.wf(),
    {
        FieldBuffer { front, back, parity: false }
    }

    /// Flip the parity: the roles of the two halves exchange, the underlying
    /// resources stay where they are.
    pub fn swap(&mut self)
        ensures
            *final(self) == old(self).flipped(),
            final(self).current_id() == old(self).next_id(),
            final(self).next_id() == old(self).current_id(),
    {
        self.parity = !self.parity;
    }

    /// The resource that is safe to read this instant.
    pub fn current(&self) -> (r: u32)
        ensures
            r == self.current_id(),
    {
        if self.parity {
            self.back
        } else {
            self.front
        }
    }

    /// The resource that is safe to write this instant.
    pub fn next(&self) -> (r: u32)
        ensures
            r == self.next_id(),
    {
        if self.parity {
            self.front
        } else {
            self.back
        }
    }
}

/// The two halves of a well-formed field never alias, whichever parity it
/// has reached: what `current` returns and what `next` returns are always
/// distinct physical resources.
pub proof fn lemma_no_aliasing(f: FieldBuffer)
    requires
        f.wf(),
    ensures
        f.current_id() != f.next_id(),
{
}

/// Parity correctness for one field across a frame: if the slots are
/// unchanged and the parity advanced by `n` completed write stages, then the
/// post-frame `current` equals the pre-frame `next` exactly when `n` is odd,
/// and equals the pre-frame `current` exactly when `n` is even.
pub proof fn lemma_parity_correctness(pre: FieldBuffer, post: FieldBuffer, n: nat)
    requires
        pre.wf(),
        post.front == pre.front,
        post.back == pre.back,
        post.parity == parity_after(pre.parity, n),
    ensures
        (post.current_id() == pre.next_id()) <==> n % 2 == 1,
        (post.current_id() == pre.current_id()) <==> n % 2 == 0,
{
}

/// Every field is well formed and no resource appears in two places: the
/// four halves of any two distinct fields are pairwise distinct.
pub open spec fn pool_wf(fields: Seq<FieldBuffer>) -> bool {
    &&& forall|i: int| 0 <= i < fields.len() ==> (#[trigger] fields[i]).wf()
    &&& forall|i: int, j: int|
        0 <= i < fields.len() && 0 <= j < fields.len() && i != j ==> (#[trigger] fields[i]).front
            != (#[trigger] fields[j]).front && fields[i].front != fields[j].back
            && fields[i].back != fields[j].front && fields[i].back != fields[j].back
}

/// Whether resource `r` is one half of some field of `fields`.
pub open spec fn pool_uses(fields: Seq<FieldBuffer>, r: u32) -> bool {
    exists|i: int|
        0 <= i < fields.len() && ((#[trigger] fields[i]).front == r || fields[i].back == r)
}

/// The pool of every double-buffered field of the simulation. Fields are
/// allocated once at setup and live for the process lifetime; afterwards
/// only their parities change.
pub struct SwapPool {
    /// The fields, indexed by the order of their allocation; `pool_wf`
    /// holds throughout, maintained by `allocate` and `swap`.
    pub fields: Vec<FieldBuffer>,
}

impl SwapPool {
    pub open spec fn wf(self) -> bool {
        pool_wf(self.fields@)
    }

    /// An empty pool.
    pub fn new() -> (p: SwapPool)
        ensures
            p.wf(),
            p.fields@ == Seq::<FieldBuffer>::empty(),
    {
        let p = SwapPool { fields: Vec::new() };
        proof {
            assert(p.fields@ =~= Seq::<FieldBuffer>::empty());
        }
        p
    }

    /// Add one field over a freshly created pair of storage resources,
    /// starting at parity zero. The pair must be new to the pool: that is
    /// what keeps every binding of every later frame alias-free.
    pub fn allocate(&mut self, front: u32, back: u32) -> (idx: usize)
        requires
            old(self).wf(),
            front != back,
            !pool_uses(old(self).fields@, front),
            !pool_uses(old(self).fields@, back),
        ensures
            final(self).wf(),
            idx == old(self).fields@.len(),
            final(self).fields@ == old(self).fields@.push(
                FieldBuffer { front, back, parity: false },
            ),
    {
        let idx = self.fields.len();
        self.fields.push(FieldBuffer { front, back, parity: false });
        proof {
            let prev = old(self).fields@;
            let now = self.fields@;
            assert forall|i: int, j: int|
                0 <= i < now.len() && 0 <= j < now.len() && i != j implies (
            #[trigger] now[i]).front != (#[trigger] now[j]).front && now[i].front != now[j].back
                && now[i].back != now[j].front && now[i].back != now[j].back by {
                if i < prev.len() && j < prev.len() {
                    assert(now[i] == prev[i] && now[j] == prev[j]);
                } else if i < prev.len() {
                    assert(now[i] == prev[i] && !pool_uses(prev, front) && !pool_uses(prev, back));
                } else {
                    assert(now[j] == prev[j] && !pool_uses(prev, front) && !pool_uses(prev, back));
                }
            }
        }
        idx
    }

    /// How many fields the pool holds.
    pub fn len(&self) -> (n: usize)
        ensures
            n == self.fields@.len(),
    {
        self.fields.len()
    }

    /// The read-safe resource of one field at its present parity.
    pub fn current(&self, field: usize) -> (r: u32)
        requires
            field < self.fields@.len(),
        ensures
            r == self.fields@[field as int].current_id(),
    {
        self.fields[field].current()
    }

    /// The write-safe resource of one field at its present parity.
    pub fn next(&self, field: usize) -> (r: u32)
        requires
            field < self.fields@.len(),
        ensures
            r == self.fields@[field as int].next_id(),
    {
        self.fields[field].next()
    }

    /// Flip one field's parity after a stage that wrote it has completed
    /// (dispatch and barrier issued). Every other field is untouched and the
    /// pool stays well formed: flipping moves no resource.
    pub fn swap(&mut self, field: usize)
        requires
            old(self).wf(),
            field < old(self).fields@.len(),
        ensures
            final(self).wf(),
            final(self).fields@ == old(self).fields@.update(
                field as int,
                old(self).fields@[field as int].flipped(),
            ),
    {
        let f = &mut self.fields[field];
        f.swap();
        proof {
            assert(self.fields@ =~= old(self).fields@.update(
                field as int,
                old(self).fields@[field as int].flipped(),
            ));
        }
    }
}

} // verus!
