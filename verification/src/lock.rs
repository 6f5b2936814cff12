//! The register of path locks: one lock for each path that was ever asked
//! for, made on first use and never removed, and the state of each.

use vstd::prelude::*;
use crate::text::chars_equal;
use crate::text::chars_of;

verus! {

/// The lock of one path.
struct PathLock {
    path: String,
    locked: bool,
}

/// The locks of the image files, one for each path.
pub struct ImageFileLockService {
    locks: Vec<PathLock>,
}

/// The states of the locks after a request for the lock `handle`.
pub open spec fn spec_after_acquire(locked: Seq<bool>, handle: int) -> Seq<bool> {
    if 0 <= handle < locked.len() {
        locked.update(handle, true)
    } else {
        locked
    }
}

/// The states of the locks after the lock `handle` was given back.
pub open spec fn spec_after_release(locked: Seq<bool>, handle: int) -> Seq<bool> {
    if 0 <= handle < locked.len() {
        locked.update(handle, false)
    } else {
        locked
    }
}

/// Whether a request for the lock `handle` is granted: the lock is there and
/// it is free.
pub open spec fn spec_granted(locked: Seq<bool>, handle: int) -> bool {
    0 <= handle < locked.len() && !locked[handle]
}

impl ImageFileLockService {
    /// The paths that have a lock, in the order in which they got it.
    pub closed spec fn spec_paths(self) -> Seq<Seq<char>> {
        Seq::new(self.locks@.len(), |i: int| self.locks@[i].path@)
    }

    /// For each lock, whether it is held.
    pub closed spec fn spec_locked(self) -> Seq<bool> {
        Seq::new(self.locks@.len(), |i: int| self.locks@[i].locked)
    }

    /// No path has two locks. A new service is well formed, and every
    /// operation keeps it so.
    pub open spec fn spec_well_formed(self) -> bool {
        forall|i: int, j: int|
            0 <= i < j < self.spec_paths().len() ==> self.spec_paths()[i] != self.spec_paths()[j]
    }

    /// There are as many states as paths.
    pub proof fn lemma_one_state_for_each_path(self)
        ensures
            self.spec_paths().len() == self.spec_locked().len(),
    {
    }

    /// A service without any lock.
    pub fn new() -> (service: ImageFileLockService)
        ensures
            service.spec_well_formed(),
            service.spec_paths().len() == 0,
            service.spec_locked().len() == 0,
    {
        ImageFileLockService { locks: Vec::new() }
    }

    /// The number of locks.
    pub fn len(&self) -> (count: usize)
        ensures
            count == self.spec_paths().len(),
            count == self.spec_locked().len(),
    {
        self.locks.len()
    }

    /// The lock of a path, as the index under which the service holds it.
    /// The first request for a path makes its lock, free; every later request
    /// gives the same lock. No lock is ever removed, and none changes state
    /// here.
    pub fn get_or_create_path_mutex(&mut self, image_path: &str) -> (handle: usize)
        requires
            old(self).spec_well_formed(),
        ensures
            final(self).spec_well_formed(),
            handle < final(self).spec_paths().len(),
            final(self).spec_paths()[handle as int] == image_path@,
            old(self).spec_paths().contains(image_path@) ==> {
                &&& final(self).spec_paths() == old(self).spec_paths()
                &&& final(self).spec_locked() == old(self).spec_locked()
            },
            !old(self).spec_paths().contains(image_path@) ==> {
                &&& handle == old(self).spec_paths().len()
                &&& final(self).spec_paths() == old(self).spec_paths().push(image_path@)
                &&& final(self).spec_locked() == old(self).spec_locked().push(false)
            },
    {
        let wanted = chars_of(image_path);
        let mut i: usize = 0;
        while i < self.locks.len()
            invariant
                i <= self.locks.len(),
                wanted@ == image_path@,
                self.locks@ == old(self).locks@,
                self.spec_well_formed(),
                forall|k: int| 0 <= k < i ==> self.spec_paths()[k] != image_path@,
            decreases self.locks.len() - i,
        {
            if chars_equal(&chars_of(self.locks[i].path.as_str()), &wanted) {
                assert(self.spec_paths()[i as int] == image_path@);
                return i;
            }
            i += 1;
        }
        let ghost before = self.spec_paths();
        let ghost states = self.spec_locked();
        assert(!before.contains(image_path@));
        self.locks.push(PathLock { path: image_path.to_string(), locked: false });
        proof {
            assert(self.spec_paths() =~= before.push(image_path@));
            assert(self.spec_locked() =~= states.push(false));
            assert forall|a: int, b: int| 0 <= a < b < self.spec_paths().len() implies self.spec_paths()[a]
                != self.spec_paths()[b] by {
                assert(before[a] == self.spec_paths()[a]);
                if b < before.len() {
                    assert(before[b] == self.spec_paths()[b]);
                }
            }
        }
        self.locks.len() - 1
    }

    /// Whether the lock is held. A lock that the service does not have is
    /// not held.
    pub fn is_locked(&self, handle: usize) -> (held: bool)
        ensures
            held == (handle < self.spec_locked().len() && self.spec_locked()[handle as int]),
    {
        handle < self.locks.len() && self.locks[handle].locked
    }

    /// Takes the lock if it is free. The lock is held afterwards either way,
    /// and the answer says whether it is the caller who holds it now. No
    /// other lock changes, and nothing at all for a lock that the service
    /// does not have.
    pub fn try_acquire(&mut self, handle: usize) -> (granted: bool)
        ensures
            old(self).spec_well_formed() ==> final(self).spec_well_formed(),
            granted == spec_granted(old(self).spec_locked(), handle as int),
            final(self).spec_paths() == old(self).spec_paths(),
            final(self).spec_locked() == spec_after_acquire(old(self).spec_locked(), handle as int),
    {
        if handle >= self.locks.len() {
            return false;
        }
        let granted = !self.locks[handle].locked;
        self.set_state(handle, true);
        granted
    }

    /// Gives the lock back. No other lock changes.
    pub fn release(&mut self, handle: usize)
        ensures
            old(self).spec_well_formed() ==> final(self).spec_well_formed(),
            final(self).spec_paths() == old(self).spec_paths(),
            final(self).spec_locked() == spec_after_release(old(self).spec_locked(), handle as int),
    {
        if handle < self.locks.len() {
            self.set_state(handle, false);
        }
    }

    fn set_state(&mut self, handle: usize, locked: bool)
        requires
            handle < old(self).spec_locked().len(),
        ensures
            final(self).spec_paths() == old(self).spec_paths(),
            final(self).spec_locked() == old(self).spec_locked().update(handle as int, locked),
    {
        let ghost before = self.locks@;
        let path = self.locks[handle].path.clone();
        self.locks.set(handle, PathLock { path, locked });
        proof {
            assert forall|a: int| 0 <= a < before.len() implies self.locks@[a].path@
                == before[a].path@ by {}
            assert(self.spec_paths() =~= old(self).spec_paths());
            assert(self.spec_locked() =~= old(self).spec_locked().update(handle as int, locked));
        }
    }
}

/// Of two requests for a lock with no release between them, the second one
/// is refused, whether or not the first one was granted: two operations
/// never hold the lock of one path together.
pub proof fn lemma_mutual_exclusion(locked: Seq<bool>, handle: int)
    ensures
        !spec_granted(spec_after_acquire(locked, handle), handle),
{
}

/// A lock that was given back is granted to the next request.
pub proof fn lemma_release_frees(locked: Seq<bool>, handle: int)
    requires
        0 <= handle < locked.len(),
    ensures
        spec_granted(spec_after_release(locked, handle), handle),
{
}

/// Taking or giving back the lock of one path leaves the lock of every other
/// path as it is: operations on different paths do not wait for each other.
pub proof fn lemma_paths_independent(locked: Seq<bool>, handle: int, other: int)
    requires
        handle != other,
    ensures
        spec_granted(spec_after_acquire(locked, handle), other) == spec_granted(locked, other),
        spec_granted(spec_after_release(locked, handle), other) == spec_granted(locked, other),
{
}

} // verus!
