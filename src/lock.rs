use vstd::prelude::*;
use crate::error::Error;

verus! {

#[verifier::external_type_specification]
#[verifier::external_body]
pub struct ExLock(file_lock::Lock);

/// The lock that file_lock's Lock::new gives for the descriptor `fd`.
pub uninterp spec fn lock_of_fd(fd: i32) -> file_lock::Lock;

/// Relies on file_lock's Lock::new: a lock bound to the descriptor `fd`,
/// which takes no lock yet; it depends on `fd` alone.
#[verifier::external_body]
fn lock_for_fd(fd: i32) -> (r: file_lock::Lock)
    ensures
        r == lock_of_fd(fd),
{
    file_lock::Lock::new(fd)
}

/// Relies on file_lock's Lock::lock with a blocking kind and write access:
/// on success this process holds the exclusive lock on the whole file;
/// on failure it gives back the error number, which is never 0.
#[verifier::external_body]
fn lock_exclusive(lock: &mut StoreLock) -> (r: Result<(), i32>)
    ensures
        final(lock).inner() == old(lock).inner(),
        final(lock).unlock_failed() == old(lock).unlock_failed(),
        r is Ok ==> final(lock).held(),
        r is Err ==> r->Err_0 != 0,
{
    match lock.lock.lock(file_lock::LockKind::Blocking, file_lock::AccessMode::Write) {
        Ok(()) => Ok(()),
        Err(file_lock::Error::Errno(n)) => Err(n),
    }
}

/// Relies on file_lock's Lock::unlock: on success the lock on the file is
/// released; on failure it gives back the error number, which is never 0,
/// and the lock's state is not known.
#[verifier::external_body]
fn unlock(lock: &mut StoreLock) -> (r: Result<(), i32>)
    ensures
        final(lock).inner() == old(lock).inner(),
        r is Ok ==> !final(lock).held() && !final(lock).unlock_failed(),
        r is Err ==> final(lock).unlock_failed() && r->Err_0 != 0,
{
    match lock.lock.unlock() {
        Ok(()) => Ok(()),
        Err(file_lock::Error::Errno(n)) => Err(n),
    }
}

/// The advisory lock that serialises the operations on one store across
/// processes. Each operation takes it before it touches the file and gives
/// it back on every way out.
pub struct StoreLock {
    lock: file_lock::Lock,
    /// Whether this handle holds the lock on the file.
    held: Ghost<bool>,
    /// Whether the last release failed, leaving the lock's state unknown.
    unlock_failed: Ghost<bool>,
}

impl StoreLock {
    /// The file lock that this store lock takes and releases.
    pub closed spec fn inner(&self) -> file_lock::Lock {
        self.lock
    }

    /// This handle holds the exclusive lock on the file.
    pub closed spec fn held(&self) -> bool {
        self.held@
    }

    /// The last release of the lock failed.
    pub closed spec fn unlock_failed(&self) -> bool {
        self.unlock_failed@
    }

    /// A lock bound to the open file descriptor `fd`; nothing is locked yet.
    pub fn new(fd: i32) -> (r: Self)
        ensures
            r.inner() == lock_of_fd(fd),
            !r.held(),
            !r.unlock_failed(),
    {
        StoreLock { lock: lock_for_fd(fd), held: Ghost(false), unlock_failed: Ghost(false) }
    }

    /// Waits for the exclusive lock on the store's file.
    pub fn acquire(&mut self) -> (r: Result<(), Error>)
        ensures
            final(self).inner() == old(self).inner(),
            final(self).unlock_failed() == old(self).unlock_failed(),
            r is Ok ==> final(self).held(),
            r matches Err(e) ==> e matches Error::LockError(n) && n != 0,
    {
        match lock_exclusive(self) {
            Ok(()) => Ok(()),
            Err(n) => Err(Error::LockError(n)),
        }
    }

    /// Releases the lock, whatever the operation under it came to, and
    /// gives back that operation's outcome. The operation's own error comes
    /// first; a failed release turns a success into a locking error. On
    /// return the lock is no longer held, unless the release itself failed.
    pub fn release_after<T>(&mut self, outcome: Result<T, Error>) -> (r: Result<T, Error>)
        ensures
            final(self).inner() == old(self).inner(),
            !final(self).held() || final(self).unlock_failed(),
            outcome is Err ==> r == outcome,
            outcome is Ok ==> (r is Ok <==> !final(self).unlock_failed()),
            outcome is Ok ==> (r is Ok ==> r == outcome),
            outcome is Ok ==> (r matches Err(e) ==> e matches Error::LockError(n) && n != 0),
    {
        let released = unlock(self);
        match outcome {
            Err(e) => Err(e),
            Ok(v) => match released {
                Ok(()) => Ok(v),
                Err(n) => Err(Error::LockError(n)),
            },
        }
    }
}

} // verus!
