//! Counts behind a node's job queue: permits to take a queued job, and
//! tasks waiting for one.  Each operation returns what the task must do
//! next; the waiting itself is left to the caller.  The counts wrap around
//! at the bounds of `usize`, as atomic counters do.
use vstd::prelude::*;

verus! {

/// `n + 1`, wrapping to 0 past the largest `usize`.
pub open spec fn inc(n: usize) -> usize {
    if n == usize::MAX {
        0
    } else {
        (n + 1) as usize
    }
}

/// `n - 1`, wrapping to the largest `usize` below 0.
pub open spec fn dec(n: usize) -> usize {
    if n == 0 {
        usize::MAX
    } else {
        (n - 1) as usize
    }
}

/// Permits and waiting tasks of a job queue.
#[derive(Clone, Copy, Debug, PartialEq, Eq, Structural)]
pub struct Permits {
    /// Jobs queued and not yet taken.
    pub permits: usize,
    /// Tasks waiting for a job.
    pub waiters: usize,
}

impl Permits {
    /// No permit, no waiting task.
    pub fn new() -> (r: Permits)
        ensures
            r.permits == 0,
            r.waiters == 0,
    {
        Permits { permits: 0, waiters: 0 }
    }

    /// A job was queued: one more permit.  Says whether a waiting task must
    /// be woken, which is when some task was waiting.
    pub fn new_permit(&mut self) -> (notify: bool)
        ensures
            final(self).permits == inc(old(self).permits),
            final(self).waiters == old(self).waiters,
            notify == (old(self).waiters >= 1),
    {
        let waiters = self.waiters;
        self.permits = self.permits.wrapping_add(1);
        waiters >= 1
    }

    /// A task asks for a job: it takes a permit where there is one and says
    /// so; else it is counted among the waiting tasks, and must wait to be
    /// woken and then call [`Permits::resume`].
    pub fn claim(&mut self) -> (taken: bool)
        ensures
            taken == (old(self).permits > 0),
            taken ==> *final(self) == (Permits { permits: dec(old(self).permits), ..*old(self) }),
            !taken ==> *final(self) == (Permits { waiters: inc(old(self).waiters), ..*old(self) }),
    {
        if self.permits == 0 {
            self.waiters = self.waiters.wrapping_add(1);
            false
        } else {
            self.permits = self.permits.wrapping_sub(1);
            true
        }
    }

    /// A waiting task was woken: it stops waiting and takes a permit.
    pub fn resume(&mut self)
        ensures
            final(self).waiters == dec(old(self).waiters),
            final(self).permits == dec(old(self).permits),
    {
        self.waiters = self.waiters.wrapping_sub(1);
        self.permits = self.permits.wrapping_sub(1);
    }
}

/// Queuing a job and then taking it leaves the counts as they were, when no
/// task was waiting; and the task takes it without waiting.
pub proof fn lemma_permit_then_claim(p: Permits, mid: Permits, post: Permits, notify: bool, taken: bool)
    requires
        p.permits < usize::MAX,
        mid.permits == inc(p.permits),
        mid.waiters == p.waiters,
        notify == (p.waiters >= 1),
        taken == (mid.permits > 0),
        taken ==> post == (Permits { permits: dec(mid.permits), ..mid }),
    ensures
        taken,
        post == p,
{
}

/// A task that had to wait and was woken after a job was queued leaves the
/// counts as they were before it asked.
pub proof fn lemma_wait_then_resume(p: Permits, waiting: Permits, queued: Permits, post: Permits)
    requires
        p.permits == 0,
        p.waiters < usize::MAX,
        waiting == (Permits { waiters: inc(p.waiters), ..p }),
        queued.permits == inc(waiting.permits),
        queued.waiters == waiting.waiters,
        post.waiters == dec(queued.waiters),
        post.permits == dec(queued.permits),
    ensures
        post == p,
{
}

} // verus!
