//! The program cache: stable handles for compiled GPU programs, ownership of
//! source paths, and atomic replacement on successful rebuilds.
//!
//! A program is registered once and identified ever after by a sequential
//! handle that is never reassigned or renumbered. The cache maps each
//! canonical source path to the one program owning it; a per-frame update
//! turns the changed paths into the set of programs to rebuild, and a
//! successful rebuild replaces exactly that handle's stored object. A failed
//! rebuild leaves the previously working object in place: availability over
//! freshness.

use vstd::prelude::*;
use crate::compiler::{BuildError, ProgramSpec, SourceUnit};

verus! {

/// The owning handle recorded for path `p` from entry `i` on: the first
/// entry whose key equals `p`, if any.
spec fn lookup_from(m: Seq<(String, usize)>, p: Seq<char>, i: int) -> Option<usize>
    decreases m.len() - i,
{
    if i < 0 || i >= m.len() {
        None
    } else if m[i].0@ == p {
        Some(m[i].1)
    } else {
        lookup_from(m, p, i + 1)
    }
}

/// What a lookup result means: `None` exactly when no entry from `i` on has
/// key `p`, and a hit is some entry with key `p`.
proof fn lemma_lookup_from_characterizes(m: Seq<(String, usize)>, p: Seq<char>, i: int)
    requires
        0 <= i <= m.len(),
    ensures
        lookup_from(m, p, i) is None <==> (forall|k: int| i <= k < m.len() ==> (#[trigger] m[k]).0@ != p),
        lookup_from(m, p, i) matches Some(h) ==> exists|k: int|
            i <= k < m.len() && (#[trigger] m[k]).0@ == p && m[k].1 == h,
    decreases m.len() - i,
{
    if i < m.len() && m[i].0@ != p {
        lemma_lookup_from_characterizes(m, p, i + 1);
    }
}

/// Looking a path up in `m1 + m2` finds what `m1` has for it, and falls
/// through to `m2` only when `m1` has nothing.
proof fn lemma_lookup_append(m1: Seq<(String, usize)>, m2: Seq<(String, usize)>, p: Seq<char>, i: int)
    requires
        0 <= i <= m1.len(),
    ensures
        lookup_from(m1 + m2, p, i) == (match lookup_from(m1, p, i) {
            Some(h) => Some(h),
            None => lookup_from(m2, p, 0),
        }),
    decreases m1.len() - i,
{
    if i < m1.len() {
        assert((m1 + m2)[i] == m1[i]);
        if m1[i].0@ != p {
            lemma_lookup_append(m1, m2, p, i + 1);
        }
    } else {
        lemma_lookup_shift(m1, m2, p, 0);
    }
}

/// Looking up in the tail `m2` of `m1 + m2` ignores `m1` entirely.
proof fn lemma_lookup_shift(m1: Seq<(String, usize)>, m2: Seq<(String, usize)>, p: Seq<char>, k: int)
    requires
        0 <= k <= m2.len(),
    ensures
        lookup_from(m1 + m2, p, m1.len() + k) == lookup_from(m2, p, k),
    decreases m2.len() - k,
{
    if k < m2.len() {
        assert((m1 + m2)[m1.len() + k] == m2[k]);
        if m2[k].0@ != p {
            lemma_lookup_shift(m1, m2, p, k + 1);
        }
    }
}

/// In a block whose entries all carry the same handle, a lookup yields that
/// handle exactly when some entry's key matches.
proof fn lemma_lookup_const_value(m: Seq<(String, usize)>, h: usize, p: Seq<char>, i: int)
    requires
        0 <= i <= m.len(),
        forall|k: int| 0 <= k < m.len() ==> (#[trigger] m[k]).1 == h,
    ensures
        lookup_from(m, p, i) == (if exists|k: int| i <= k < m.len() && (#[trigger] m[k]).0@ == p {
            Some(h)
        } else {
            None
        }),
    decreases m.len() - i,
{
    if i < m.len() && m[i].0@ != p {
        lemma_lookup_const_value(m, h, p, i + 1);
    }
}

/// The hot-reloading program cache.
pub struct ShaderHotloader {
    /// Maps each canonical source path to the handle of its owning program.
    path_to_idx: Vec<(String, usize)>,
    /// The live program object for each handle, indexed by handle.
    objects: Vec<u32>,
    /// The source units each program was registered with, indexed by handle.
    specs: Vec<ProgramSpec>,
}

impl ShaderHotloader {
    /// How many programs have been registered.
    pub closed spec fn num_programs(self) -> nat {
        self.objects@.len()
    }

    /// The live program object currently stored for handle `i`.
    pub closed spec fn program_at(self, i: int) -> u32 {
        self.objects@[i]
    }

    /// The source units that the program with handle `i` was registered with.
    pub closed spec fn spec_at(self, i: int) -> Seq<SourceUnit> {
        self.specs@[i]@
    }

    /// The handle of the program owning canonical path `p`, if any.
    pub closed spec fn owner_of(self, p: Seq<char>) -> Option<usize> {
        lookup_from(self.path_to_idx@, p, 0)
    }

    /// Every recorded owner is a registered handle, each handle has both an
    /// object and a spec, and no path is recorded twice.
    pub closed spec fn wf(self) -> bool {
        &&& self.objects@.len() == self.specs@.len()
        &&& forall|k: int|
            0 <= k < self.path_to_idx@.len() ==> (#[trigger] self.path_to_idx@[k]).1
                < self.objects@.len()
        &&& forall|k1: int, k2: int|
            0 <= k1 < k2 < self.path_to_idx@.len() ==> (#[trigger] self.path_to_idx@[k1]).0@
                != (#[trigger] self.path_to_idx@[k2]).0@
    }

    /// An empty cache: no programs, no owned paths. Watching the source tree
    /// for changes happens outside the library; the cache only consumes the
    /// changed paths it is handed each frame.
    pub fn new() -> (c: ShaderHotloader)
        ensures
            c.wf(),
            c.num_programs() == 0,
            forall|p: Seq<char>| c.owner_of(p) is None,
    {
        ShaderHotloader { path_to_idx: Vec::new(), objects: Vec::new(), specs: Vec::new() }
    }

    /// How many programs have been registered, as a value.
    pub fn program_count(&self) -> (n: usize)
        ensures
            n == self.num_programs(),
    {
        self.objects.len()
    }

    /// Register one program: record its source units, take ownership of
    /// their paths, and assign the next sequential handle.
    ///
    /// The build itself has already run (the driver's verdict arrives in
    /// `build`). On success the new handle is returned and the cache grows
    /// by exactly that program; earlier handles, their stored objects and
    /// their specs are untouched. On failure nothing is recorded and no
    /// handle is produced: a failed registration is fatal to the caller,
    /// since no previously working program exists for this handle.
    pub fn add_program(&mut self, spec: ProgramSpec, build: Result<u32, BuildError>) -> (r: Result<
        usize,
        BuildError,
    >)
        requires
            old(self).wf(),
            spec@.len() >= 1,
            forall|k: int|
                0 <= k < spec@.len() ==> old(self).owner_of((#[trigger] spec@[k]).path@) is None,
            forall|k1: int, k2: int|
                0 <= k1 < k2 < spec@.len() ==> (#[trigger] spec@[k1]).path@ != (
                #[trigger] spec@[k2]).path@,
            old(self).num_programs() < usize::MAX,
        ensures
            final(self).wf(),
            build matches Err(e) ==> r == Err::<usize, BuildError>(e) && *final(self) == *old(
                self,
            ),
            build matches Ok(p) ==> {
                &&& r == Ok::<usize, BuildError>(old(self).num_programs() as usize)
                &&& final(self).num_programs() == old(self).num_programs() + 1
                &&& final(self).program_at(old(self).num_programs() as int) == p
                &&& final(self).spec_at(old(self).num_programs() as int) == spec@
                &&& forall|i: int|
                    0 <= i < old(self).num_programs() ==> final(self).program_at(i) == old(
                        self,
                    ).program_at(i) && final(self).spec_at(i) == old(self).spec_at(i)
                &&& forall|k: int|
                    0 <= k < spec@.len() ==> final(self).owner_of((#[trigger] spec@[k]).path@)
                        == Some(old(self).num_programs() as usize)
                &&& forall|q: Seq<char>|
                    (forall|k: int| 0 <= k < spec@.len() ==> (#[trigger] spec@[k]).path@ != q)
                        ==> final(self).owner_of(q) == old(self).owner_of(q)
            },
    {
        let p = match build {
            Ok(p) => p,
            Err(e) => {
                return Err(e);
            },
        };
        let idx = self.objects.len();
        let ghost old_map = self.path_to_idx@;
        let mut k: usize = 0;
        while k < spec.len()
            invariant
                0 <= k <= spec@.len(),
                self.objects@ == old(self).objects@,
                self.specs@ == old(self).specs@,
                idx == self.objects@.len(),
                old_map == old(self).path_to_idx@,
                self.path_to_idx@.len() == old_map.len() + k,
                forall|j: int| 0 <= j < old_map.len() ==> self.path_to_idx@[j] == old_map[j],
                forall|j: int|
                    0 <= j < k ==> (#[trigger] self.path_to_idx@[old_map.len() + j]).0@
                        == spec@[j].path@ && self.path_to_idx@[old_map.len() + j].1 == idx,
            decreases spec@.len() - k,
        {
            let path = spec[k].path.clone();
            self.path_to_idx.push((path, idx));
            k += 1;
        }
        self.objects.push(p);
        self.specs.push(spec);
        proof {
            let new_map = self.path_to_idx@;
            let added = new_map.subrange(old_map.len() as int, new_map.len() as int);
            assert(new_map =~= old_map + added);
            assert forall|j: int| 0 <= j < added.len() implies (#[trigger] added[j]).0@
                == spec@[j].path@ && added[j].1 == idx by {
                assert(added[j] == new_map[old_map.len() + j]);
            }
            assert forall|q: Seq<char>| true implies lookup_from(new_map, q, 0) == (
            match lookup_from(old_map, q, 0) {
                Some(h) => Some(h),
                None => lookup_from(added, q, 0),
            }) by {
                lemma_lookup_append(old_map, added, q, 0);
            }
            assert forall|q: Seq<char>| true implies lookup_from(added, q, 0) == (
            if exists|j: int| 0 <= j < added.len() && (#[trigger] added[j]).0@ == q {
                Some(idx)
            } else {
                None
            }) by {
                lemma_lookup_const_value(added, idx, q, 0);
            }
            // Registration of fresh paths: old lookups were None, so the new
            // block decides ownership for them; everything else is untouched.
            assert forall|k2: int| 0 <= k2 < spec@.len() implies self.owner_of(
                (#[trigger] spec@[k2]).path@,
            ) == Some(idx) by {
                lemma_lookup_from_characterizes(old_map, spec@[k2].path@, 0);
                assert(added[k2].0@ == spec@[k2].path@);
            }
            // Well-formedness: the added keys are pairwise distinct and
            // absent from the old map.
            assert forall|k1: int, k2: int|
                0 <= k1 < k2 < new_map.len() implies (#[trigger] new_map[k1]).0@ != (
            #[trigger] new_map[k2]).0@ by {
                if k2 >= old_map.len() {
                    let j2 = k2 - old_map.len();
                    if k1 >= old_map.len() {
                        let j1 = k1 - old_map.len();
                        assert(spec@[j1].path@ != spec@[j2].path@);
                    } else {
                        lemma_lookup_from_characterizes(old_map, spec@[j2].path@, 0);
                        assert(old(self).owner_of(spec@[j2].path@) is None);
                    }
                }
            }
        }
        Ok(idx)
    }

    /// The live program object for a handle: whatever the cache currently
    /// considers "the" program there. Reads one slot; never blocks on a
    /// rebuild in progress elsewhere.
    pub fn get_program(&self, idx: usize) -> (r: u32)
        requires
            idx < self.num_programs(),
        ensures
            r == self.program_at(idx as int),
    {
        self.objects[idx]
    }

    /// The source units the program with this handle was registered with,
    /// needed to rebuild it.
    pub fn get_spec(&self, idx: usize) -> (r: &ProgramSpec)
        requires
            self.wf(),
            idx < self.num_programs(),
        ensures
            r@ == self.spec_at(idx as int),
    {
        &self.specs[idx]
    }

    /// The owning handle for one canonical path, if any program owns it.
    fn find_owner(&self, path: &String) -> (r: Option<usize>)
        ensures
            r == self.owner_of(path@),
    {
        let n = self.path_to_idx.len();
        let mut k: usize = 0;
        while k < n
            invariant
                n == self.path_to_idx@.len(),
                0 <= k <= n,
                lookup_from(self.path_to_idx@, path@, 0) == lookup_from(
                    self.path_to_idx@,
                    path@,
                    k as int,
                ),
            decreases n - k,
        {
            if self.path_to_idx[k].0 == *path {
                return Some(self.path_to_idx[k].1);
            }
            k += 1;
        }
        None
    }

    /// The per-frame reload step, fed the debounced set of changed paths:
    /// returns the handles of the programs whose source-unit set intersects
    /// them, each handle at most once however many of its paths changed.
    /// Paths owned by no registered program are ignored.
    ///
    /// The caller rebuilds each returned handle's program and hands the
    /// verdicts to `apply_reload`; a path unchanged on disk never appears
    /// here, so no spurious rebuild is triggered.
    pub fn update(&self, changed: &Vec<String>) -> (stale: Vec<usize>)
        requires
            self.wf(),
        ensures
            forall|a: int, b: int|
                0 <= a < b < stale@.len() ==> stale@[a] != stale@[b],
            forall|h: usize|
                stale@.contains(h) <==> exists|k: int|
                    0 <= k < changed@.len() && self.owner_of((#[trigger] changed@[k])@) == Some(h),
            forall|a: int| 0 <= a < stale@.len() ==> (#[trigger] stale@[a]) < self.num_programs(),
    {
        let mut stale: Vec<usize> = Vec::new();
        let n = changed.len();
        let mut k: usize = 0;
        while k < n
            invariant
                self.wf(),
                n == changed@.len(),
                0 <= k <= n,
                forall|a: int, b: int| 0 <= a < b < stale@.len() ==> stale@[a] != stale@[b],
                forall|h: usize|
                    stale@.contains(h) <==> exists|j: int|
                        0 <= j < k && self.owner_of((#[trigger] changed@[j])@) == Some(h),
                forall|a: int|
                    0 <= a < stale@.len() ==> (#[trigger] stale@[a]) < self.num_programs(),
            decreases n - k,
        {
            let ghost prev = stale@;
            let owner = self.find_owner(&changed[k]);
            if let Some(h) = owner {
                proof {
                    // A recorded owner is in range.
                    lemma_lookup_from_characterizes(self.path_to_idx@, changed@[k as int]@, 0);
                }
                if !contains_handle(&stale, h) {
                    stale.push(h);
                }
            }
            proof {
                let ko = changed@[k as int]@;
                assert forall|h2: usize| stale@.contains(h2) implies exists|j: int|
                    0 <= j < k + 1 && self.owner_of((#[trigger] changed@[j])@) == Some(h2) by {
                    let a = choose|a: int| 0 <= a < stale@.len() && stale@[a] == h2;
                    if a < prev.len() {
                        assert(prev[a] == h2);
                        assert(prev.contains(h2));
                    } else {
                        // Only a push can have added it, so it owns the path
                        // examined this round.
                        assert(self.owner_of(ko) == Some(h2));
                        assert(0 <= k < k + 1 && self.owner_of(changed@[k as int]@) == Some(h2));
                    }
                }
                assert forall|h2: usize|
                    (exists|j: int|
                        0 <= j < k + 1 && self.owner_of((#[trigger] changed@[j])@) == Some(
                            h2,
                        )) implies stale@.contains(h2) by {
                    let j = choose|j: int|
                        0 <= j < k + 1 && self.owner_of((#[trigger] changed@[j])@) == Some(h2);
                    if j == k {
                        assert(owner == Some(h2));
                        if !prev.contains(h2) {
                            assert(stale@[stale@.len() - 1] == h2);
                        } else {
                            let a = choose|a: int| 0 <= a < prev.len() && prev[a] == h2;
                            assert(stale@[a] == h2);
                        }
                    } else {
                        assert(prev.contains(h2));
                        let a = choose|a: int| 0 <= a < prev.len() && prev[a] == h2;
                        assert(stale@[a] == h2);
                    }
                }
                // Distinctness: a push happens only when the handle is absent.
                assert forall|a: int, b: int| 0 <= a < b < stale@.len() implies stale@[a]
                    != stale@[b] by {
                    if b == prev.len() && stale@.len() > prev.len() {
                        assert(prev[a] == stale@[a]);
                        assert(!prev.contains(stale@[b]));
                    }
                }
            }
            k += 1;
        }
        stale
    }

    /// Apply one rebuild verdict for an existing handle.
    ///
    /// On success the handle's stored object is replaced by the fresh one
    /// and the old object is retired; the handle itself, the program's
    /// source units, every other program and all path ownership stay exactly
    /// as they were. On failure the cache is left completely unchanged - the
    /// previously working program keeps running - and the error is passed
    /// back so the caller can surface the diagnostic; no discarded rebuild
    /// is silent.
    pub fn apply_reload(&mut self, idx: usize, build: Result<u32, BuildError>) -> (r: Result<
        (),
        BuildError,
    >)
        requires
            old(self).wf(),
            idx < old(self).num_programs(),
        ensures
            final(self).wf(),
            final(self).num_programs() == old(self).num_programs(),
            forall|i: int|
                0 <= i < old(self).num_programs() ==> final(self).spec_at(i) == old(self).spec_at(
                    i,
                ),
            forall|q: Seq<char>| final(self).owner_of(q) == old(self).owner_of(q),
            forall|i: int|
                0 <= i < old(self).num_programs() && i != idx ==> final(self).program_at(i) == old(
                    self,
                ).program_at(i),
            build matches Ok(p) ==> r is Ok && final(self).program_at(idx as int) == p,
            build matches Err(e) ==> r == Err::<(), BuildError>(e) && *final(self) == *old(self),
    {
        match build {
            Ok(p) => {
                self.objects[idx] = p;
                Ok(())
            },
            Err(e) => Err(e),
        }
    }
}

/// Whether `v` already holds handle `h`.
fn contains_handle(v: &Vec<usize>, h: usize) -> (r: bool)
    ensures
        r == v@.contains(h),
{
    let n = v.len();
    let mut k: usize = 0;
    while k < n
        invariant
            n == v@.len(),
            0 <= k <= n,
            forall|j: int| 0 <= j < k ==> v@[j] != h,
        decreases n - k,
    {
        if v[k] == h {
            return true;
        }
        k += 1;
    }
    false
}

} // verus!
