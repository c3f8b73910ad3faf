use vstd::prelude::*;
use vstd::string::StringExecFns;

pub mod controller;
pub mod errors;
pub mod procext;
pub mod settling;
pub mod win;

pub use controller::{Controller, PollOutcome};
pub use errors::{Error, HcbResult};
pub use procext::{MonitoredProcess, MonitoredThread, ThreadSample};

verus! {

/// The executable name of the process whose threads are managed.
pub open spec fn target_name() -> Seq<char> {
    "RocketLeague.exe"@
}

/// Whether a process with this executable name is the one to manage.
pub fn is_rl_process_name(name: &str) -> (r: bool)
    ensures
        r == (name@ == target_name()),
{
    let target = String::from_str("RocketLeague.exe");
    let given = name.to_owned();
    given == target
}

} // verus!
