//! What the user asks of a run.

use vstd::prelude::*;

verus! {

/// The settings of one run.
#[derive(Clone, Debug)]
pub struct Args {
    /// Folder to download images into; chosen automatically where left out.
    pub folder: Option<String>,
    /// Send no desktop notification on failure.
    pub quiet: bool,
    /// Empty the folder before the run instead of resuming.
    pub clean: bool,
    /// Seconds after which a request is given up.
    pub timeout: u64,
    /// Attempts allowed for each day before the worker gives up.
    pub attempts: u32,
    /// The most workers to use; as many as the machine allows where left out.
    pub max_threads: Option<usize>,
    /// Fetch from the other source.
    pub alt_api: bool,
}

impl Args {
    /// The settings that apply where the user gives none.
    pub fn new() -> (r: Args)
        ensures
            r.folder is None,
            !r.quiet,
            !r.clean,
            r.timeout == 15,
            r.attempts == 10,
            r.max_threads is None,
            !r.alt_api,
    {
        Args {
            folder: None,
            quiet: false,
            clean: false,
            timeout: 15,
            attempts: 10,
            max_threads: None,
            alt_api: false,
        }
    }

    /// Whether a run can begin: one attempt a day at least must be allowed.
    pub fn attempts_allowed(&self) -> (r: bool)
        ensures
            r == (self.attempts > 0),
    {
        self.attempts > 0
    }
}

} // verus!
