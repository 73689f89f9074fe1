//! Error types of the library's domains: manifest handling and the CLI,
//! the node agent, and the container runtime. Outside failures reach the
//! library as the message strings these variants carry.

use vstd::prelude::*;

verus! {

/// Errors of the container-runtime boundary.
#[derive(Debug)]
pub enum RuntimeError {
    /// The runtime failed; the message describes how.
    Docker(String),
    /// The runtime does not know the named container.
    ContainerNotFound(String),
}

pub type RuntimeResult<T> = Result<T, RuntimeError>;

/// Errors of manifest handling and the command-line client.
#[derive(Debug)]
pub enum CliError {
    InvalidManifest(String),
    HttpError(String),
    YamlError(String),
    IoError(String),
    JsonnetError(String),
}

pub type CliResult<T> = Result<T, CliError>;

/// Errors of the node agent.
#[derive(Debug)]
pub enum AgentError {
    RegistrationFailed(String),
}

pub type AgentResult<T> = Result<T, AgentError>;

} // verus!
