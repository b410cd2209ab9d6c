//! The user configuration: server, solver, deadlines and parallelism.
use vstd::prelude::*;

use crate::text::str_bytes;
use vstd::string::StringSliceAdditionalSpecFns;

verus! {

/// The contents of the configuration file.
#[derive(Debug, Clone)]
pub struct Settings {
    pub server_url: Vec<u8>,
    pub solver_bin: Vec<u8>,
    pub run_log_dir: Vec<u8>,
    pub solver_uuid: Option<Vec<u8>>,
    pub timeout: u64,
    pub grace: u64,
    pub parallel_jobs: usize,
}

impl Settings {
    /// The defaults: the public origin server, logs under `stride-logs`, no
    /// solver chosen or registered, a soft deadline of 300 seconds, a grace
    /// of 5, and one job per processor.
    pub fn try_default(cpus: usize) -> (r: Settings)
        ensures
            r.server_url@ == "https://domset.algorithm.engineering".spec_bytes(),
            r.solver_bin@.len() == 0,
            r.run_log_dir@ == "stride-logs".spec_bytes(),
            r.solver_uuid is None,
            r.timeout == 300,
            r.grace == 5,
            r.parallel_jobs == cpus,
    {
        Settings {
            server_url: str_bytes("https://domset.algorithm.engineering"),
            solver_bin: Vec::new(),
            run_log_dir: str_bytes("stride-logs"),
            solver_uuid: None,
            timeout: 300,
            grace: 5,
            parallel_jobs: cpus,
        }
    }
}

} // verus!
