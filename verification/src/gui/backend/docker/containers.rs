//! What the containers panel shows of each container.
use vstd::prelude::*;
use vstd::string::{StrSliceExecFns, is_ascii};

use crate::text::same_text;

verus! {

broadcast use vstd::string::group_string_axioms;

/// The first twelve characters of a container ID (IDs are ASCII hex digests).
pub fn short_container_id(id: &str) -> (r: &str)
    requires
        is_ascii(id),
    ensures
        r@ == if id@.len() >= 12 {
            id@.take(12)
        } else {
            id@
        },
{
    if id.unicode_len() >= 12 {
        let short = id.substring_char(0, 12);
        assert(short@ =~= id@.take(12));
        short
    } else {
        id
    }
}

/// How a container's state is highlighted.
#[derive(Debug, Clone, Copy, PartialEq, Eq, Structural)]
pub enum StateKind {
    Running,
    Stopped,
    Paused,
    Other,
}

pub open spec fn spec_state_kind(state: Seq<char>) -> StateKind {
    if state == "running"@ {
        StateKind::Running
    } else if state == "exited"@ || state == "dead"@ {
        StateKind::Stopped
    } else if state == "paused"@ {
        StateKind::Paused
    } else {
        StateKind::Other
    }
}

/// `running`, `exited`/`dead`, `paused`, or anything else.
pub fn state_kind(state: &str) -> (r: StateKind)
    ensures
        r == spec_state_kind(state@),
{
    if same_text(state, "running") {
        StateKind::Running
    } else if same_text(state, "exited") || same_text(state, "dead") {
        StateKind::Stopped
    } else if same_text(state, "paused") {
        StateKind::Paused
    } else {
        StateKind::Other
    }
}

} // verus!
