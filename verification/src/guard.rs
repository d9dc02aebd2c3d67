//! The single-instance guard, modelled over the advisory lock table the
//! operating system keeps: at most one logical actor holds the lock at a
//! well-known path at a time. The caller that is refused must treat the
//! refusal as fatal and register no hotkeys.

use vstd::prelude::*;
use vstd::string::StringExecFns;

use crate::error::AlreadyRunning;
use crate::text::str_eq;

verus! {

broadcast use vstd::set::group_set_axioms;

/// Ownership token for an exclusive hold of the lock at one path. Held for
/// the process's operating lifetime and handed back on orderly shutdown.
#[derive(Debug)]
pub struct LockGuard {
    path: String,
}

impl LockGuard {
    /// The path this guard holds.
    pub closed spec fn spec_path(&self) -> Seq<char> {
        self.path@
    }

    /// The path this guard holds.
    pub fn path(&self) -> (r: &String)
        ensures
            r@ == self.spec_path(),
    {
        &self.path
    }
}

/// The set of paths a sequence of held locks denotes.
pub open spec fn paths_set(s: Seq<String>) -> Set<Seq<char>>
    decreases s.len(),
{
    if s.len() == 0 {
        Set::empty()
    } else {
        paths_set(s.drop_last()).insert(s.last()@)
    }
}

/// Held paths are pairwise distinct.
pub open spec fn paths_distinct(s: Seq<String>) -> bool {
    forall|i: int, j: int| 0 <= i < j < s.len() ==> (#[trigger] s[i])@ != (#[trigger] s[j])@
}

proof fn lemma_paths_set_contains(s: Seq<String>, p: Seq<char>)
    ensures
        paths_set(s).contains(p) <==> exists|i: int| 0 <= i < s.len() && (#[trigger] s[i])@ == p,
    decreases s.len(),
{
    if s.len() > 0 {
        lemma_paths_set_contains(s.drop_last(), p);
        if s.last()@ == p {
            assert((s[s.len() - 1])@ == p);
        } else if exists|i: int| 0 <= i < s.len() && (#[trigger] s[i])@ == p {
            let i = choose|i: int| 0 <= i < s.len() && (#[trigger] s[i])@ == p;
            assert(s.drop_last()[i] == s[i]);
        }
    }
}

proof fn lemma_paths_distinct_remove(s: Seq<String>, i: int)
    requires
        paths_distinct(s),
        0 <= i < s.len(),
    ensures
        paths_distinct(s.remove(i)),
{
    let t = s.remove(i);
    assert forall|a: int, b: int| 0 <= a < b < t.len() implies (t[a])@ != (t[b])@ by {
        let ia: int = if a < i {
            a
        } else {
            a + 1
        };
        let ib: int = if b < i {
            b
        } else {
            b + 1
        };
        assert(t[a] == s[ia]);
        assert(t[b] == s[ib]);
    }
}

proof fn lemma_paths_set_remove(s: Seq<String>, i: int)
    requires
        paths_distinct(s),
        0 <= i < s.len(),
    ensures
        paths_set(s.remove(i)) =~= paths_set(s).remove(s[i]@),
    decreases s.len(),
{
    lemma_paths_set_contains(s.drop_last(), s[i]@);
    if i == s.len() - 1 {
        assert(s.remove(i) =~= s.drop_last());
        assert(!paths_set(s.drop_last()).contains(s[i]@));
    } else {
        assert(s.remove(i).drop_last() =~= s.drop_last().remove(i));
        assert(paths_distinct(s.drop_last())) by {
            assert(forall|k: int| 0 <= k < s.len() - 1 ==> s.drop_last()[k] == s[k]);
        }
        lemma_paths_set_remove(s.drop_last(), i);
        assert(s.drop_last()[i] == s[i]);
        assert(s.remove(i).last() == s.last());
    }
}

/// A lock may be acquired at a path only while no actor holds it there.
pub open spec fn spec_can_acquire(t: Set<Seq<char>>, p: Seq<char>) -> bool {
    !t.contains(p)
}

/// The advisory lock table: which well-known paths are currently held.
/// One table stands for the shared external resource all logical actors
/// contend over.
pub struct LockTable {
    held: Vec<String>,
}

impl View for LockTable {
    type V = Set<Seq<char>>;

    closed spec fn view(&self) -> Set<Seq<char>> {
        paths_set(self.held@)
    }
}

impl LockTable {
    /// The held paths are pairwise distinct.
    pub closed spec fn wf(&self) -> bool {
        paths_distinct(self.held@)
    }

    /// A table with no lock held.
    pub fn new() -> (r: Self)
        ensures
            r.wf(),
            r@ == Set::<Seq<char>>::empty(),
    {
        LockTable { held: Vec::new() }
    }

    /// Try to take the exclusive lock at `path`, without blocking and
    /// without retry. Succeeds exactly when no actor holds it; a caller
    /// refused with `AlreadyRunning` must treat that as fatal and proceed
    /// to no hotkey registration.
    pub fn acquire(&mut self, path: &str) -> (r: Result<LockGuard, AlreadyRunning>)
        requires
            old(self).wf(),
        ensures
            final(self).wf(),
            r is Ok <==> spec_can_acquire(old(self)@, path@),
            match r {
                Ok(g) => g.spec_path() == path@ && final(self)@ == old(self)@.insert(path@),
                Err(e) => e == AlreadyRunning && final(self)@ == old(self)@ && final(self)@
                    .contains(path@),
            },
    {
        let n = self.held.len();
        let mut i: usize = 0;
        while i < n
            invariant
                i <= n,
                n == self.held@.len(),
                self.held == old(self).held,
                paths_distinct(self.held@),
                forall|j: int| 0 <= j < i ==> (#[trigger] self.held@[j])@ != path@,
            decreases n - i,
        {
            if str_eq(self.held[i].as_str(), path) {
                proof {
                    lemma_paths_set_contains(self.held@, path@);
                }
                return Err(AlreadyRunning);
            }
            i = i + 1;
        }
        proof {
            lemma_paths_set_contains(self.held@, path@);
        }
        let owned = String::from_str(path);
        self.held.push(owned);
        proof {
            assert(self.held@.drop_last() =~= old(self).held@);
            lemma_paths_set_contains(old(self).held@, path@);
        }
        Ok(LockGuard { path: String::from_str(path) })
    }

    /// Hand a held lock back: the guard is consumed, the path is free
    /// again for the next acquire.
    pub fn release(&mut self, guard: LockGuard)
        requires
            old(self).wf(),
            old(self)@.contains(guard.spec_path()),
        ensures
            final(self).wf(),
            final(self)@ == old(self)@.remove(guard.spec_path()),
    {
        let n = self.held.len();
        let mut i: usize = 0;
        proof {
            lemma_paths_set_contains(self.held@, guard.spec_path());
        }
        while i < n
            invariant
                i <= n,
                n == self.held@.len(),
                self.held == old(self).held,
                paths_distinct(self.held@),
                exists|j: int| 0 <= j < n && (#[trigger] self.held@[j])@ == guard.spec_path(),
                forall|j: int| 0 <= j < i ==> (#[trigger] self.held@[j])@ != guard.spec_path(),
            decreases n - i,
        {
            if str_eq(self.held[i].as_str(), guard.path.as_str()) {
                proof {
                    lemma_paths_set_remove(self.held@, i as int);
                    lemma_paths_distinct_remove(self.held@, i as int);
                }
                self.held.remove(i);
                return ;
            }
            i = i + 1;
        }
        proof {
            assert(false);
        }
    }
}

/// Law: at most one instance per path. When one actor's acquire at a path
/// has succeeded, a second acquire at that path by any other actor is
/// refused until the first releases.
pub proof fn lemma_second_acquire_rejected(t: Set<Seq<char>>, p: Seq<char>)
    requires
        spec_can_acquire(t, p),
    ensures
        !spec_can_acquire(t.insert(p), p),
{
}

} // verus!
