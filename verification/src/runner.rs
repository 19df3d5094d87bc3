//! A whole run: all files aggregated and ranked, on a pool of as many threads as asked for.

use crate::aggregate::merged_all;
use crate::argument_parser::ArgumentParser;
use crate::csvs_processor::{all_reads, read_updates, FileRead, Processor};
use crate::top_calculator::{ranked_players, ranked_weapons, RankedPlayerEntry, RankedWeaponEntry, TopCalculator};
use rayon::{ThreadPool, ThreadPoolBuildError, ThreadPoolBuilder};
use vstd::prelude::*;

verus! {

/// `rayon`'s pool of worker threads. Nothing is known of what is inside.
#[verifier::external_type_specification]
#[verifier::external_body]
pub struct ExThreadPool(rayon::ThreadPool);

/// `rayon`'s reason for not building a pool. Nothing is known of what is inside.
#[verifier::external_type_specification]
#[verifier::external_body]
pub struct ExThreadPoolBuildError(rayon::ThreadPoolBuildError);

/// Why a run gave no results.
#[derive(Clone, Copy, Debug, PartialEq, Eq)]
pub enum RunError {
    /// The pool of threads could not be built.
    NoThreadPool,
}

/// The two rankings: the players, then the weapons.
pub type Rankings = (Vec<RankedPlayerEntry>, Vec<RankedWeaponEntry>);

/// The rankings are those of the lines that were read from the files.
pub open spec fn rankings_of(files: Seq<FileRead>, rankings: Rankings) -> bool {
    let whole = merged_all(read_updates(all_reads(files)));
    &&& ranked_players(whole.players, rankings.0@)
    &&& ranked_weapons(whole.weapons, rankings.1@)
}

/// Builds a pool with the given number of threads, or with as many as `rayon` chooses where
/// the number is `0`: `ThreadPoolBuilder::new`, `num_threads` and `build` of `rayon`.
///
/// Nothing is claimed of the result: whether the threads can be had depends on the machine.
#[verifier::external_body]
fn build_thread_pool(num_threads: usize) -> (pool: Result<ThreadPool, ThreadPoolBuildError>) {
    ThreadPoolBuilder::new().num_threads(num_threads).build()
}

/// Runs `op` on the pool and hands back what it returned: `ThreadPool::install` of `rayon`.
///
/// Taken on trust: `op` is called once, and its result is the result.
#[verifier::external_body]
fn install<R: Send, OP: FnOnce() -> R + Send>(pool: &ThreadPool, op: OP) -> (result: R)
    requires
        call_requires(op, ()),
    ensures
        call_ensures(op, (), result),
{
    pool.install(op)
}

/// Runs the pipeline.
pub struct Runner {}

impl Runner {
    /// A runner. It keeps nothing between runs.
    pub fn new() -> (runner: Self) {
        Runner {  }
    }

    /// Aggregates and ranks what was read from the files, on a pool of as many threads as
    /// the arguments ask for. There are no results where the pool could not be built.
    pub fn run(&self, parser: &ArgumentParser, files: &Vec<FileRead>) -> (results: Result<
        Rankings,
        RunError,
    >)
        requires
            all_reads(files@).len() <= u64::MAX,
        ensures
            results matches Ok(rankings) ==> rankings_of(files@, rankings),
    {
        let pool = build_thread_pool(parser.get_num_threads());
        self.run_on(pool, files)
    }

    /// Aggregates and ranks what was read from the files on the given pool, if there is one.
    pub fn run_on(
        &self,
        pool: Result<ThreadPool, ThreadPoolBuildError>,
        files: &Vec<FileRead>,
    ) -> (results: Result<Rankings, RunError>)
        requires
            all_reads(files@).len() <= u64::MAX,
        ensures
            results.is_ok() == pool.is_ok(),
            results matches Ok(rankings) ==> rankings_of(files@, rankings),
            results matches Err(error) ==> error == RunError::NoThreadPool,
    {
        match pool {
            Err(_) => Err(RunError::NoThreadPool),
            Ok(pool) => {
                let work = || -> (rankings: Rankings)
                    requires
                        all_reads(files@).len() <= u64::MAX,
                    ensures
                        rankings_of(files@, rankings),
                    {
                        let processor = Processor::new();
                        let top_calculator = TopCalculator::new();
                        let whole = processor.process_csvs(files);
                        top_calculator.calculate_and_sort_results(&whole.weapons, &whole.players)
                    };
                Ok(install(&pool, work))
            },
        }
    }
}

} // verus!
