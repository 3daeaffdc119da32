//! Topology engine and supervisor policy for an orchestrator of long-running
//! child processes that exchange topic-tagged messages over duplex channels.
//!
//! The crate holds the decisions of the orchestrator: which channel half is
//! still free, where a message of a given topic goes, and which background
//! activity is allowed to finish. Spawning, transport and scheduling are left
//! to the program that embeds it.

pub mod channel;
pub mod connected;
pub mod error;
pub mod forward;
pub mod laws;
pub mod message;
pub mod orchestrator;
pub mod ownership;
pub mod queue;
pub mod routing;
pub mod supervisor;
pub mod topology;
pub mod worker;

pub use crate::connected::Bridge;
pub use crate::connected::ConnectedOrchestrator;
pub use crate::message::Message;
pub use crate::orchestrator::orchestrator;
pub use crate::orchestrator::Orchestrator;
pub use crate::orchestrator::IPC_SERVER_ENV_VAR;
