//! What crosses the boundary between frontend and backend.
use vstd::prelude::*;

use crate::backend::docker::{DockerCommand, DockerMessage};
use crate::backend::sysinfo::{SysinfoCommand, SysinfoMessage};
use crate::time::Interval;

verus! {

/// The collectors a frontend can address.
#[derive(Debug, Clone, Copy, PartialEq, Eq, Hash, Structural)]
pub enum SystemId {
    System,
    Components,
    Docker,
}

/// Frontend to backend.
#[derive(Debug)]
pub enum Command {
    SetInterval { target: SystemId, interval: Interval },
    Refresh(SystemId),
    Docker(DockerCommand),
    Sysinfo(SysinfoCommand),
}

/// Backend to frontend.
#[derive(Debug)]
pub enum Message {
    IntervalChanged { target: SystemId, interval: Interval },
    CommandError(String),
    Docker(DockerMessage),
    Sysinfo(SysinfoMessage),
}

} // verus!
