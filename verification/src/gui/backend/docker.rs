//! Frontend state for Docker: configuration and the latest container and image lists.
use vstd::prelude::*;
use std::time::SystemTime;
use vstd::string::StringExecFns;

use crate::backend::docker::{DockerMessage, SimpleContainer, SimpleImage};
use crate::text::same_text;

pub mod containers;
pub mod images;

verus! {

broadcast use vstd::string::group_string_axioms;

/// Frontend preferences for the Docker collector.
#[derive(Debug)]
pub struct DockerConfig {
    /// Connection URI, e.g. "unix:///var/run/docker.sock"
    pub socket_path: String,
    /// Update interval in seconds
    pub update_interval_secs: u64,
}

pub open spec fn default_socket_path() -> Seq<char> {
    "unix:///var/run/docker.sock"@
}

impl Default for DockerConfig {
    fn default() -> (r: Self)
        ensures
            r.socket_path@ == default_socket_path(),
            r.update_interval_secs == 2,
    {
        DockerConfig {
            socket_path: String::from_str("unix:///var/run/docker.sock"),
            update_interval_secs: 2,
        }
    }
}

impl DockerConfig {
    /// A copy of the configuration.
    pub fn duplicate(&self) -> (r: Self)
        ensures
            r.socket_path@ == self.socket_path@,
            r.update_interval_secs == self.update_interval_secs,
    {
        DockerConfig {
            socket_path: String::from_str(self.socket_path.as_str()),
            update_interval_secs: self.update_interval_secs,
        }
    }
}

/// What the frontend shows of the daemon.
#[derive(Debug)]
pub struct DockerState {
    pub containers: Vec<SimpleContainer>,
    pub images: Vec<SimpleImage>,
    pub connected: bool,
    pub containers_error: Option<String>,
    pub images_error: Option<String>,
    pub last_updated: Option<SystemTime>,
}

impl DockerState {
    pub fn new() -> (r: Self)
        ensures
            r.containers@.len() == 0,
            r.images@.len() == 0,
            !r.connected,
            r.containers_error is None,
            r.images_error is None,
            r.last_updated is None,
    {
        DockerState {
            containers: Vec::new(),
            images: Vec::new(),
            connected: false,
            containers_error: None,
            images_error: None,
            last_updated: None,
        }
    }
}

/// What applying a Docker message to `pre` gives (see [`DockerSharedState::receive`]).
pub open spec fn docker_received(pre: DockerSharedState, post: DockerSharedState, message: DockerMessage) -> bool {
    let DockerMessage::Snapshot(s) = message;
    &&& post.config == pre.config
    &&& if s.socket_path@ != pre.config.socket_path@ {
        post.state == pre.state
    } else {
        &&& post.state.connected == (s.containers is Ok || s.images is Ok)
        &&& post.state.containers == match s.containers {
            Ok(v) => v,
            Err(_) => pre.state.containers,
        }
        &&& post.state.containers_error == match s.containers {
            Ok(_) => None,
            Err(e) => Some(e),
        }
        &&& post.state.images == match s.images {
            Ok(v) => v,
            Err(_) => pre.state.images,
        }
        &&& post.state.images_error == match s.images {
            Ok(_) => None,
            Err(e) => Some(e),
        }
        &&& post.state.last_updated == Some(s.captured_at)
    }
}

pub struct DockerSharedState {
    pub config: DockerConfig,
    pub state: DockerState,
}

impl DockerSharedState {
    pub fn new() -> (r: Self)
        ensures
            r.config.socket_path@ == default_socket_path(),
            r.config.update_interval_secs == 2,
            r.state.containers@.len() == 0,
            r.state.images@.len() == 0,
            !r.state.connected,
            r.state.containers_error is None,
            r.state.images_error is None,
            r.state.last_updated is None,
    {
        DockerSharedState { config: DockerConfig::default(), state: DockerState::new() }
    }

    /// Applies a sampling cycle. Cycles for another endpoint than the configured one
    /// are ignored. A failed read keeps the previous list and records the error; the
    /// daemon counts as connected when either read succeeded.
    pub fn receive(&mut self, message: DockerMessage)
        ensures
            docker_received(*old(self), *final(self), message),
    {
        let DockerMessage::Snapshot(snapshot) = message;
        if !same_text(snapshot.socket_path.as_str(), self.config.socket_path.as_str()) {
            return;
        }
        self.state.connected = snapshot.containers.is_ok() || snapshot.images.is_ok();
        self.state.containers_error = match snapshot.containers {
            Ok(value) => {
                self.state.containers = value;
                None
            },
            Err(error) => Some(error),
        };
        self.state.images_error = match snapshot.images {
            Ok(value) => {
                self.state.images = value;
                None
            },
            Err(error) => Some(error),
        };
        self.state.last_updated = Some(snapshot.captured_at);
    }
}

/// The Docker domain of the frontend.
pub struct DockerFrontend {
    pub state: DockerSharedState,
}

impl DockerFrontend {
    pub fn new() -> (r: Self)
        ensures
            r.state.config.socket_path@ == default_socket_path(),
            r.state.config.update_interval_secs == 2,
            r.state.state.containers@.len() == 0,
            r.state.state.images@.len() == 0,
            !r.state.state.connected,
            r.state.state.last_updated is None,
    {
        DockerFrontend { state: DockerSharedState::new() }
    }
}

} // verus!
