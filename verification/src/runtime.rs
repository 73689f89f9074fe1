//! The container-runtime states the agent interprets, and how runtime
//! status strings map onto them. The runtime itself is an external
//! collaborator; the agent only consumes these states.

use vstd::prelude::*;

use crate::text::{eq_ignore_ascii_case, str_eq_ignore_case};

verus! {

/// The state of a container as the runtime reports it.
#[derive(Debug, Clone, Copy, PartialEq, Eq, Structural)]
pub enum ContainerStatus {
    Created,
    Running,
    Paused,
    Restarting,
    Exited,
    Dead,
    Unknown,
}

/// The state a runtime status string denotes, compared without regard to
/// ASCII case; anything unrecognized is `Unknown`.
pub open spec fn spec_container_status(s: Seq<char>) -> ContainerStatus {
    if eq_ignore_ascii_case(s, "created"@) {
        ContainerStatus::Created
    } else if eq_ignore_ascii_case(s, "running"@) {
        ContainerStatus::Running
    } else if eq_ignore_ascii_case(s, "paused"@) {
        ContainerStatus::Paused
    } else if eq_ignore_ascii_case(s, "restarting"@) {
        ContainerStatus::Restarting
    } else if eq_ignore_ascii_case(s, "exited"@) {
        ContainerStatus::Exited
    } else if eq_ignore_ascii_case(s, "dead"@) {
        ContainerStatus::Dead
    } else {
        ContainerStatus::Unknown
    }
}

impl<'a> From<&'a str> for ContainerStatus {
    fn from(s: &'a str) -> (r: ContainerStatus) {
        if str_eq_ignore_case(s, "created") {
            ContainerStatus::Created
        } else if str_eq_ignore_case(s, "running") {
            ContainerStatus::Running
        } else if str_eq_ignore_case(s, "paused") {
            ContainerStatus::Paused
        } else if str_eq_ignore_case(s, "restarting") {
            ContainerStatus::Restarting
        } else if str_eq_ignore_case(s, "exited") {
            ContainerStatus::Exited
        } else if str_eq_ignore_case(s, "dead") {
            ContainerStatus::Dead
        } else {
            ContainerStatus::Unknown
        }
    }
}

impl<'a> vstd::std_specs::convert::FromSpecImpl<&'a str> for ContainerStatus {
    open spec fn obeys_from_spec() -> bool {
        true
    }

    open spec fn from_spec(s: &'a str) -> Self {
        spec_container_status(s@)
    }
}

} // verus!
