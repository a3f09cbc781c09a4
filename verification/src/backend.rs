//! Routing of frontend commands to the collectors.
use vstd::prelude::*;
use vstd::string::StringExecFns;

use crate::message::{Command, Message, SystemId};
use crate::time::Interval;
use self::docker::DockerCommand;
use self::sysinfo::SysinfoCommand;

pub mod docker;
pub mod sysinfo;

verus! {

/// Shortest accepted collector interval: 50 ms.
pub open spec fn min_interval_nanos() -> nat {
    50_000_000
}

/// Longest accepted collector interval: 24 hours.
pub open spec fn max_interval_nanos() -> nat {
    86_400_000_000_000
}

pub open spec fn interval_is_valid(interval: Interval) -> bool {
    min_interval_nanos() <= interval.total_nanos() <= max_interval_nanos()
}

pub open spec fn invalid_interval_message() -> Seq<char> {
    "Read interval must be between 50 ms and 24 hours"@
}

/// Where one frontend command goes.
#[derive(Debug)]
pub enum Route {
    /// Change a collector's interval; acknowledged once the collector took it.
    SetInterval { target: SystemId, interval: Interval },
    /// Queue a command for the system collector.
    System(SysinfoCommand),
    /// Queue a command for the temperature collector.
    Components(SysinfoCommand),
    /// Queue a command for the Docker collector.
    Docker(DockerCommand),
    /// Refuse the command with this message.
    Reject(String),
}

/// Decides where a command goes. Interval changes outside 50 ms ..= 24 h are refused.
pub fn route(command: Command) -> (r: Route)
    ensures
        match command {
            Command::SetInterval { target, interval } => if interval_is_valid(interval) {
                r == (Route::SetInterval { target, interval })
            } else {
                (r matches Route::Reject(m) && m@ == invalid_interval_message())
            },
            Command::Refresh(SystemId::System) => r matches Route::System(SysinfoCommand::Refresh),
            Command::Refresh(SystemId::Components) => r matches Route::Components(
                SysinfoCommand::Refresh,
            ),
            Command::Refresh(SystemId::Docker) => r matches Route::Docker(DockerCommand::Refresh),
            Command::Sysinfo(c) => r == Route::System(c),
            Command::Docker(c) => r == Route::Docker(c),
        },
{
    match command {
        Command::SetInterval { target, interval } => {
            if interval.is_shorter_than(&Interval::from_millis(50))
                || Interval::from_secs(86400).is_shorter_than(&interval) {
                Route::Reject(String::from_str("Read interval must be between 50 ms and 24 hours"))
            } else {
                Route::SetInterval { target, interval }
            }
        },
        Command::Refresh(SystemId::System) => Route::System(SysinfoCommand::Refresh),
        Command::Refresh(SystemId::Components) => Route::Components(SysinfoCommand::Refresh),
        Command::Refresh(SystemId::Docker) => Route::Docker(DockerCommand::Refresh),
        Command::Sysinfo(c) => Route::System(c),
        Command::Docker(c) => Route::Docker(c),
    }
}

/// The reply to an accepted interval change: the acknowledgement when the collector
/// took it, an error when the collector has stopped.
pub fn interval_reply(target: SystemId, interval: Interval, applied: bool) -> (r: Message)
    ensures
        applied ==> r == (Message::IntervalChanged { target, interval }),
        !applied ==> (r matches Message::CommandError(m) && m@ == "Collector stopped"@),
{
    if applied {
        Message::IntervalChanged { target, interval }
    } else {
        Message::CommandError(String::from_str("Collector stopped"))
    }
}

} // verus!
