use crate::errors::RuNeVisError;
use vstd::prelude::*;

verus! {

/// Declares `rayon::ThreadPoolBuildError`, the error of setting up a pool,
/// as an opaque type.
#[verifier::external_type_specification]
#[verifier::external_body]
pub struct ExThreadPoolBuildError(rayon::ThreadPoolBuildError);

/// Relies on `num_cpus::get`: the number of logical CPUs this process may
/// use, which its documentation promises is at least 1. The count itself
/// depends on the machine.
#[verifier::external_body]
fn logical_cpus() -> (r: usize)
    ensures
        r >= 1,
{
    num_cpus::get()
}

/// Relies on `rayon::current_num_threads`: the size of the pool the caller
/// runs in, or of the global pool. A pool always has at least one thread
/// (a count of 0 is replaced by the available parallelism, itself at least
/// 1); the size otherwise depends on the machine and on how the pool was set
/// up.
#[verifier::external_body]
fn pool_size() -> (r: usize)
    ensures
        r >= 1,
{
    rayon::current_num_threads()
}

/// Relies on `rayon::ThreadPoolBuilder::num_threads` and `build_global`:
/// sets up the process-wide pool with that many threads; fails if the pool
/// was already set up. Whether it fails depends on the process, so nothing
/// is stated of it.
#[verifier::external_body]
fn build_global_pool(num_threads: usize) -> (r: Result<(), rayon::ThreadPoolBuildError>) {
    rayon::ThreadPoolBuilder::new().num_threads(num_threads).build_global()
}

/// How many workers reductions use: a fixed number, or the default pool.
#[derive(Debug, Clone)]
pub struct ParallelConfig {
    pub num_threads: Option<usize>,
}

impl ParallelConfig {
    /// A configuration with the given number of threads, or the default.
    pub fn new(num_threads: Option<usize>) -> (r: Self)
        ensures
            r.num_threads == num_threads,
    {
        ParallelConfig { num_threads }
    }

    /// A configuration with exactly `num_threads` threads.
    pub fn with_threads(num_threads: usize) -> (r: Self)
        ensures
            r.num_threads == Some(num_threads),
    {
        ParallelConfig { num_threads: Some(num_threads) }
    }

    /// A configuration that keeps the default pool.
    pub fn new_default() -> (r: Self)
        ensures
            r.num_threads is None,
    {
        ParallelConfig { num_threads: None }
    }

    /// A configuration with one thread per logical CPU.
    pub fn all_cores() -> (r: Self)
        ensures
            r.num_threads matches Some(n) && n >= 1,
    {
        ParallelConfig { num_threads: Some(logical_cpus()) }
    }

    /// Number of threads of the pool reductions currently run on.
    pub fn current_threads(&self) -> (r: usize)
        ensures
            r >= 1,
    {
        pool_size()
    }

    /// Number of workers to split a reduction among: the configured number
    /// where one is set, otherwise the size of the current pool.
    pub fn workers(&self) -> (r: usize)
        ensures
            self.num_threads matches Some(n) ==> r == n,
            self.num_threads is None ==> r >= 1,
    {
        match self.num_threads {
            Some(n) => n,
            None => pool_size(),
        }
    }

    /// Sets up the process-wide pool. Without a configured number the
    /// default pool is kept and this succeeds. Zero threads is refused with
    /// `ThreadPoolError`. Otherwise the configured count goes to rayon as it
    /// is, and `pool_setup_result` turns rayon's answer into the result: a
    /// refused build, such as a second setup of the pool, is an error.
    pub fn setup_global_pool(&self) -> (r: Result<(), RuNeVisError>)
        ensures
            self.num_threads is None ==> r is Ok,
            self.num_threads == Some(0usize) ==> r is Err,
            r matches Err(e) ==> e is ThreadPoolError,
    {
        match self.num_threads {
            None => Ok(()),
            Some(n) => {
                if n == 0 {
                    return Err(
                        RuNeVisError::ThreadPoolError(
                            String::from_str("Failed to initialize thread pool: zero threads requested"),
                        ),
                    );
                }
                let built = build_global_pool(n);
                pool_setup_result(n, built)
            },
        }
    }
}

/// What setting up the pool with `num_threads` threads returns, given the
/// outcome of the build: `Ok` exactly when the pool was built; a refused
/// build (for instance because the pool had already been set up) becomes a
/// `ThreadPoolError` that names the thread count and rayon's reason.
pub fn pool_setup_result(num_threads: usize, built: Result<(), rayon::ThreadPoolBuildError>) -> (r:
    Result<(), RuNeVisError>)
    ensures
        r is Ok <==> built is Ok,
        r matches Err(e) ==> e is ThreadPoolError,
{
    match built {
        Ok(()) => Ok(()),
        Err(e) => {
            let mut m = String::from_str("Failed to initialize thread pool with ");
            m.append(num_threads.to_string().as_str());
            m.append(" threads: ");
            m.append(e.to_string().as_str());
            Err(RuNeVisError::ThreadPoolError(m))
        },
    }
}

impl Default for ParallelConfig {
    fn default() -> (r: Self)
        ensures
            r.num_threads is None,
    {
        ParallelConfig::new_default()
    }
}

/// A reduction that runs on the configured workers.
pub trait ParallelReduction<T> {
    fn reduce_parallel(&self, config: &ParallelConfig) -> Result<T, RuNeVisError>;
}

/// The parallel resources of this process.
#[derive(Debug, Clone)]
pub struct ParallelInfo {
    pub current_threads: usize,
    pub available_cores: usize,
    pub available_parallelism: usize,
}

/// Gathers the pool size and the CPU count; `available_parallelism` is the
/// parallelism the operating system reports, read by the caller.
pub fn get_parallel_info(available_parallelism: usize) -> (r: ParallelInfo)
    ensures
        r.available_parallelism == available_parallelism,
        r.current_threads >= 1,
        r.available_cores >= 1,
{
    ParallelInfo {
        current_threads: pool_size(),
        available_cores: logical_cpus(),
        available_parallelism,
    }
}

} // verus!
