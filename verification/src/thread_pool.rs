//! The worker-pool contract and the per-task spawner.

use vstd::prelude::*;

use vstd::*;

use crate::error::KvsError;

verus! {

/// The pool contract: a pool is made with a worker count and accepts tasks.
/// A task must be ready to run — its precondition must hold when it is
/// handed over — and the pool runs it on some worker, at any later time.
pub trait ThreadPool: Sized {
    /// Makes a pool with the given worker count.
    fn new(threads: u32) -> (r: Result<Self, KvsError>);

    /// Hands a task to the pool.
    fn spawn<F: FnOnce() + Send + 'static>(&self, job: F)
        requires
            job.requires(()),
    ;
}

/// Not really a pool: each task runs on a fresh thread of its own, and the
/// worker count is ignored.
pub struct NaiveThreadPool;

impl ThreadPool for NaiveThreadPool {
    fn new(_threads: u32) -> (r: Result<Self, KvsError>) {
        Ok(NaiveThreadPool)
    }

    fn spawn<F: FnOnce() + Send + 'static>(&self, job: F) {
        let _handle = thread::spawn(job);
    }
}

} // verus!
