//! Per-frame simulation state: the bounded pen map, the time step and the
//! frame-wide uniform inputs.
//!
//! Pointer and touch contacts ("pens") arrive as updates keyed by contact
//! id; the map keeps them sorted by id so each pen occupies a stable slot in
//! the padded uniform array handed to the GPU. Coordinates and velocities
//! are carried as the bit patterns of 32-bit floats: the library never does
//! float arithmetic, it only stores and arranges the values, and the all-
//! zero bit pattern is exactly the zero padding the array needs.

use vstd::prelude::*;

verus! {

/// The fixed maximum number of pens the uniform array has room for; unused
/// slots are zero-filled.
pub const MAX_PENS: usize = 5;

/// Bit pattern of the very large time-step constant substituted while the
/// simulation is paused: it visually freezes advection but keeps every stage
/// dispatching.
pub const PAUSED_DT_BITS: u32 = 0x461C3C00;

/// Bit pattern of the time step a paused simulation resumes with.
pub const INITIAL_DT_BITS: u32 = 0x3DCCCCCD;

/// One pointer or touch contact: position and derived velocity in
/// normalized coordinates, as 32-bit float bit patterns, keyed by the
/// contact id.
#[derive(Clone, Copy, Debug, PartialEq, Eq, Structural)]
pub struct Pen {
    pub id: u64,
    pub x: u32,
    pub y: u32,
    pub vx: u32,
    pub vy: u32,
}

/// The time step driving advection and particle integration: a stored bit
/// pattern, or the paused sentinel.
#[derive(Clone, Copy, Debug, PartialEq, Eq, Structural)]
pub enum TimeStep {
    Paused,
    Running(u32),
}

/// The first pen from index `i` on whose id is `id`, if any.
pub open spec fn pen_lookup_from(s: Seq<Pen>, id: u64, i: int) -> Option<Pen>
    decreases s.len() - i,
{
    if i < 0 || i >= s.len() {
        None
    } else if s[i].id == id {
        Some(s[i])
    } else {
        pen_lookup_from(s, id, i + 1)
    }
}

/// A lookup misses exactly when no pen from `i` on has the id, and a hit is
/// some pen with that id.
proof fn lemma_pen_lookup_characterizes(s: Seq<Pen>, id: u64, i: int)
    requires
        0 <= i <= s.len(),
    ensures
        pen_lookup_from(s, id, i) is None <==> (forall|k: int|
            i <= k < s.len() ==> (#[trigger] s[k]).id != id),
        pen_lookup_from(s, id, i) matches Some(p) ==> exists|k: int|
            i <= k < s.len() && (#[trigger] s[k]) == p && s[k].id == id,
    decreases s.len() - i,
{
    if i < s.len() && s[i].id != id {
        lemma_pen_lookup_characterizes(s, id, i + 1);
    }
}

/// With pairwise distinct ids, the lookup returns the one pen at the one
/// index carrying the id.
proof fn lemma_pen_lookup_unique(s: Seq<Pen>, id: u64, k: int)
    requires
        forall|a: int, b: int| 0 <= a < b < s.len() ==> (#[trigger] s[a]).id != (#[trigger] s[b]).id,
        0 <= k < s.len(),
        s[k].id == id,
    ensures
        pen_lookup_from(s, id, 0) == Some(s[k]),
{
    lemma_pen_lookup_characterizes(s, id, 0);
    let p = pen_lookup_from(s, id, 0)->Some_0;
    let j = choose|j: int| 0 <= j < s.len() && (#[trigger] s[j]) == p && s[j].id == id;
    assert(j == k);
}

/// Global per-frame state threaded into the sequencer: the accumulated pen
/// map, the time step, the screen size and the elapsed wall time, the last
/// three as 32-bit float bit patterns supplied by the caller.
pub struct FrameState {
    /// The active pens, strictly sorted by id; maintained through `set_pen`
    /// and `remove_pen`, which keep `wf`.
    pub pens: Vec<Pen>,
    /// The time step for this frame, or paused.
    pub time_step: TimeStep,
    /// Whether a pause lasts one frame (the frame after it resumes with
    /// `INITIAL_DT_BITS`) or persists until explicitly resumed.
    pub persistent_pause: bool,
    /// Screen width in pixels, as a float bit pattern.
    pub screen_w_bits: u32,
    /// Screen height in pixels, as a float bit pattern.
    pub screen_h_bits: u32,
    /// Elapsed wall time in seconds since process start, as a float bit
    /// pattern.
    pub elapsed_bits: u32,
}

impl FrameState {
    /// The pens now held, sorted by id.
    pub open spec fn pens_view(self) -> Seq<Pen> {
        self.pens@
    }

    /// The pen recorded for a contact id, if any.
    pub open spec fn pen_of(self, id: u64) -> Option<Pen> {
        pen_lookup_from(self.pens_view(), id, 0)
    }

    /// Pens are strictly sorted by id, so ids are unique and slots stable.
    pub open spec fn wf(self) -> bool {
        forall|a: int, b: int|
            0 <= a < b < self.pens@.len() ==> (#[trigger] self.pens@[a]).id < (
            #[trigger] self.pens@[b]).id
    }

    proof fn lemma_wf_unique_ids(self)
        requires
            self.wf(),
        ensures
            forall|a: int, b: int|
                0 <= a < b < self.pens_view().len() ==> (#[trigger] self.pens_view()[a]).id != (
                #[trigger] self.pens_view()[b]).id,
    {
    }

    /// Fresh state: no pens, the initial time step, one-frame pauses, and
    /// all uniform inputs zero until the caller supplies them.
    pub fn new() -> (s: FrameState)
        ensures
            s.wf(),
            s.pens_view() == Seq::<Pen>::empty(),
            s.time_step == TimeStep::Running(INITIAL_DT_BITS),
            s.persistent_pause == false,
            s.screen_w_bits == 0,
            s.screen_h_bits == 0,
            s.elapsed_bits == 0,
    {
        FrameState {
            pens: Vec::new(),
            time_step: TimeStep::Running(INITIAL_DT_BITS),
            persistent_pause: false,
            screen_w_bits: 0,
            screen_h_bits: 0,
            elapsed_bits: 0,
        }
    }

    /// How many pens are active.
    pub fn pen_count(&self) -> (n: usize)
        ensures
            n == self.pens_view().len(),
    {
        self.pens.len()
    }

    /// The pen recorded for a contact id, if any; the caller reads the old
    /// position here to derive a velocity before updating.
    pub fn get_pen(&self, id: u64) -> (r: Option<Pen>)
        requires
            self.wf(),
        ensures
            r == self.pen_of(id),
    {
        let n = self.pens.len();
        let mut k: usize = 0;
        while k < n
            invariant
                n == self.pens@.len(),
                0 <= k <= n,
                pen_lookup_from(self.pens@, id, 0) == pen_lookup_from(self.pens@, id, k as int),
            decreases n - k,
        {
            if self.pens[k].id == id {
                return Some(self.pens[k]);
            }
            k += 1;
        }
        None
    }

    /// Record a pen: overwrite the entry with the same id, or add one in id
    /// order. Every other pen keeps its recorded values.
    pub fn set_pen(&mut self, pen: Pen)
        requires
            old(self).wf(),
        ensures
            final(self).wf(),
            final(self).pen_of(pen.id) == Some(pen),
            forall|id2: u64| id2 != pen.id ==> final(self).pen_of(id2) == old(self).pen_of(id2),
            final(self).pens_view().len() == old(self).pens_view().len() + (
            if old(self).pen_of(pen.id) is Some {
                0int
            } else {
                1int
            }),
            final(self).time_step == old(self).time_step,
            final(self).persistent_pause == old(self).persistent_pause,
            final(self).screen_w_bits == old(self).screen_w_bits,
            final(self).screen_h_bits == old(self).screen_h_bits,
            final(self).elapsed_bits == old(self).elapsed_bits,
    {
        let ghost prior = self.pens@;
        let n = self.pens.len();
        let mut k: usize = 0;
        while k < n && self.pens[k].id < pen.id
            invariant
                self.pens@ == prior,
                n == prior.len(),
                0 <= k <= n,
                forall|j: int| 0 <= j < k ==> (#[trigger] prior[j]).id < pen.id,
                old(self).wf(),
                prior == old(self).pens@,
            decreases n - k,
        {
            k += 1;
        }
        let hit = k < n && self.pens[k].id == pen.id;
        if hit {
            self.pens[k] = pen;
        } else {
            self.pens.insert(k, pen);
        }
        proof {
            let now = self.pens@;
            old(self).lemma_wf_unique_ids();
            if !hit {
                prior.insert_ensures(k as int, pen);
            }
            // Sortedness of the result, in either shape.
            assert forall|a: int, b: int| 0 <= a < b < now.len() implies (#[trigger] now[a]).id < (
            #[trigger] now[b]).id by {
                if !hit {
                    assert(now == prior.insert(k as int, pen));
                    // Entries before the insertion point fall below `pen.id`
                    // and the scan stopped at the first entry at or above it,
                    // so the entry at `k` splits the order.
                    if b < k {
                        assert(now[a] == prior[a] && now[b] == prior[b]);
                    } else if a < k && b == k {
                        assert(now[a] == prior[a]);
                    } else if a < k && b > k {
                        assert(now[a] == prior[a] && now[b] == prior[b - 1]);
                        assert(prior[a].id < pen.id);
                        assert(prior[b - 1].id >= pen.id && prior[b - 1].id != pen.id);
                    } else if a == k {
                        assert(now[b] == prior[b - 1]);
                        assert(prior[b - 1].id >= pen.id && prior[b - 1].id != pen.id);
                    } else {
                        assert(now[a] == prior[a - 1] && now[b] == prior[b - 1]);
                    }
                }
            }
            assert(self.wf());
            self.lemma_wf_unique_ids();
            // The written pen is found, every other id resolves as before.
            if hit {
                lemma_pen_lookup_unique(now, pen.id, k as int);
            } else {
                assert(now == prior.insert(k as int, pen));
                assert(now[k as int] == pen);
                lemma_pen_lookup_unique(now, pen.id, k as int);
            }
            assert forall|id2: u64| id2 != pen.id implies pen_lookup_from(now, id2, 0)
                == pen_lookup_from(prior, id2, 0) by {
                lemma_pen_lookup_characterizes(prior, id2, 0);
                lemma_pen_lookup_characterizes(now, id2, 0);
                if pen_lookup_from(prior, id2, 0) is Some {
                    let q = pen_lookup_from(prior, id2, 0)->Some_0;
                    let j = choose|j: int|
                        0 <= j < prior.len() && (#[trigger] prior[j]) == q && prior[j].id == id2;
                    if hit {
                        assert(now[j] == q);
                        lemma_pen_lookup_unique(now, id2, j);
                    } else {
                        if j < k {
                            assert(now[j] == q);
                            lemma_pen_lookup_unique(now, id2, j);
                        } else {
                            assert(now[j + 1] == q);
                            lemma_pen_lookup_unique(now, id2, j + 1);
                        }
                    }
                } else {
                    assert forall|m: int| 0 <= m < now.len() implies (#[trigger] now[m]).id
                        != id2 by {
                        if hit {
                            if m == k {
                            } else {
                                assert(now[m] == prior[m]);
                            }
                        } else {
                            if m < k {
                                assert(now[m] == prior[m]);
                            } else if m == k {
                            } else {
                                assert(now[m] == prior[m - 1]);
                            }
                        }
                    }
                }
            }
            // The map either grew by the new pen or kept its size.
            if old(self).pen_of(pen.id) is Some {
                lemma_pen_lookup_characterizes(prior, pen.id, 0);
                assert(hit) by {
                    let j = choose|j: int|
                        0 <= j < prior.len() && (#[trigger] prior[j]).id == pen.id && prior[j]
                            == pen_lookup_from(prior, pen.id, 0)->Some_0;
                    assert(j == k);
                }
            } else {
                lemma_pen_lookup_characterizes(prior, pen.id, 0);
                assert(!hit);
            }
        }
    }

    /// Forget a pen when its contact ends; every other pen is untouched. A
    /// miss is a no-op.
    pub fn remove_pen(&mut self, id: u64)
        requires
            old(self).wf(),
        ensures
            final(self).wf(),
            final(self).pen_of(id) is None,
            forall|id2: u64| id2 != id ==> final(self).pen_of(id2) == old(self).pen_of(id2),
            final(self).time_step == old(self).time_step,
            final(self).persistent_pause == old(self).persistent_pause,
            final(self).screen_w_bits == old(self).screen_w_bits,
            final(self).screen_h_bits == old(self).screen_h_bits,
            final(self).elapsed_bits == old(self).elapsed_bits,
    {
        let ghost prior = self.pens@;
        let n = self.pens.len();
        let mut k: usize = 0;
        while k < n
            invariant
                self.pens@ == prior,
                n == prior.len(),
                0 <= k <= n,
                forall|j: int| 0 <= j < k ==> (#[trigger] prior[j]).id != id,
                old(self).wf(),
                prior == old(self).pens@,
                self.time_step == old(self).time_step,
                self.persistent_pause == old(self).persistent_pause,
                self.screen_w_bits == old(self).screen_w_bits,
                self.screen_h_bits == old(self).screen_h_bits,
                self.elapsed_bits == old(self).elapsed_bits,
            decreases n - k,
        {
            if self.pens[k].id == id {
                self.pens.remove(k);
                proof {
                    let now = self.pens@;
                    old(self).lemma_wf_unique_ids();
                    prior.remove_ensures(k as int);
                    assert forall|a: int, b: int| 0 <= a < b < now.len() implies (
                    #[trigger] now[a]).id < (#[trigger] now[b]).id by {
                        if b < k {
                            assert(now[a] == prior[a] && now[b] == prior[b]);
                        } else if a < k {
                            assert(now[a] == prior[a] && now[b] == prior[b + 1]);
                        } else {
                            assert(now[a] == prior[a + 1] && now[b] == prior[b + 1]);
                        }
                    }
                    self.lemma_wf_unique_ids();
                    lemma_pen_lookup_characterizes(now, id, 0);
                    assert forall|m: int| 0 <= m < now.len() implies (#[trigger] now[m]).id
                        != id by {
                        if m < k {
                            assert(now[m] == prior[m]);
                        } else {
                            assert(now[m] == prior[m + 1]);
                            assert(prior[k as int].id == id);
                        }
                    }
                    assert forall|id2: u64| id2 != id implies pen_lookup_from(now, id2, 0)
                        == pen_lookup_from(prior, id2, 0) by {
                        lemma_pen_lookup_characterizes(prior, id2, 0);
                        lemma_pen_lookup_characterizes(now, id2, 0);
                        if pen_lookup_from(prior, id2, 0) is Some {
                            let q = pen_lookup_from(prior, id2, 0)->Some_0;
                            let j = choose|j: int|
                                0 <= j < prior.len() && (#[trigger] prior[j]) == q && prior[j].id
                                    == id2;
                            if j < k {
                                assert(now[j] == q);
                                lemma_pen_lookup_unique(now, id2, j);
                            } else {
                                assert(now[j - 1] == q);
                                lemma_pen_lookup_unique(now, id2, j - 1);
                            }
                        } else {
                            assert forall|m: int| 0 <= m < now.len() implies (
                            #[trigger] now[m]).id != id2 by {
                                if m < k {
                                    assert(now[m] == prior[m]);
                                } else {
                                    assert(now[m] == prior[m + 1]);
                                }
                            }
                        }
                    }
                }
                return ;
            }
            k += 1;
        }
        proof {
            lemma_pen_lookup_characterizes(prior, id, 0);
        }
    }

    /// The value a pen slot of the padded uniform array holds: the fields of
    /// the `k`-th pen while `k` is within the active count, zero beyond it.
    pub open spec fn pen_slot(self, k: int, c: int) -> u32 {
        if 0 <= k < self.pens_view().len() {
            if c == 0 {
                self.pens_view()[k].x
            } else if c == 1 {
                self.pens_view()[k].y
            } else if c == 2 {
                self.pens_view()[k].vx
            } else {
                self.pens_view()[k].vy
            }
        } else {
            0
        }
    }

    /// The padded pen uniform array: four values per slot for the fixed
    /// maximum number of pens, the active pens first in id order, every
    /// remaining slot zero-filled. With more pens active than slots, the
    /// lowest ids are kept.
    pub fn pen_array(&self) -> (r: Vec<u32>)
        ensures
            r@.len() == 4 * MAX_PENS,
            forall|k: int, c: int|
                0 <= k < MAX_PENS && 0 <= c < 4 ==> r@[4 * k + c] == self.pen_slot(k, c),
    {
        let mut r: Vec<u32> = Vec::new();
        let mut k: usize = 0;
        while k < MAX_PENS
            invariant
                0 <= k <= MAX_PENS,
                r@.len() == 4 * k,
                forall|j: int, c: int|
                    0 <= j < k && 0 <= c < 4 ==> r@[4 * j + c] == self.pen_slot(j, c),
            decreases MAX_PENS - k,
        {
            if k < self.pens.len() {
                let p = self.pens[k];
                r.push(p.x);
                r.push(p.y);
                r.push(p.vx);
                r.push(p.vy);
            } else {
                r.push(0);
                r.push(0);
                r.push(0);
                r.push(0);
            }
            k += 1;
        }
        r
    }

    /// The frame's pause housekeeping, run once after the frame is
    /// sequenced: a one-shot pause resumes with the initial time step, a
    /// persistent one stays until the caller resumes it.
    pub fn end_frame(&mut self)
        ensures
            final(self).time_step == (if old(self).time_step is Paused && !old(
                self,
            ).persistent_pause {
                TimeStep::Running(INITIAL_DT_BITS)
            } else {
                old(self).time_step
            }),
            final(self).pens_view() == old(self).pens_view(),
            final(self).wf() == old(self).wf(),
            final(self).persistent_pause == old(self).persistent_pause,
            final(self).screen_w_bits == old(self).screen_w_bits,
            final(self).screen_h_bits == old(self).screen_h_bits,
            final(self).elapsed_bits == old(self).elapsed_bits,
    {
        if !self.persistent_pause {
            if let TimeStep::Paused = self.time_step {
                self.time_step = TimeStep::Running(INITIAL_DT_BITS);
            }
        }
    }
}

/// The time step actually bound for a frame: the stored bits while running,
/// the very large paused sentinel otherwise.
pub fn effective_dt(ts: TimeStep) -> (r: u32)
    ensures
        r == spec_effective_dt(ts),
{
    match ts {
        TimeStep::Paused => PAUSED_DT_BITS,
        TimeStep::Running(bits) => bits,
    }
}

/// What `effective_dt` returns.
pub open spec fn spec_effective_dt(ts: TimeStep) -> u32 {
    match ts {
        TimeStep::Paused => PAUSED_DT_BITS,
        TimeStep::Running(bits) => bits,
    }
}

} // verus!
