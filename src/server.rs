//! The service's fixed configuration, settled once at startup.
use vstd::prelude::*;

use crate::launch::PROGRAM;
use crate::supervisor::DEADLINE_SECS;

verus! {

/// How the service is set up: where its routes are mounted, which
/// isolation tool it runs, and how long a run may take.
pub struct Service {
    pub base: String,
    pub program: String,
    pub deadline_secs: u64,
}

/// The service: routes at the root path, runs isolated by the sandbox tool
/// and cut short at the deadline.
pub fn rocket() -> (r: Service)
    ensures
        r.base@ == "/"@,
        r.program@ == PROGRAM@,
        r.deadline_secs == DEADLINE_SECS,
{
    Service { base: "/".to_owned(), program: PROGRAM.to_owned(), deadline_secs: DEADLINE_SECS }
}

} // verus!
