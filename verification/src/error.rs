//! Errors of wiring and of the handshake.

use vstd::prelude::*;

verus! {

/// A wiring request that cannot be honoured. Nothing is spawned for it.
#[derive(Debug)]
pub enum ConfigError {
    /// A child of this name was started before.
    DuplicateBridge { name: String },
    /// No bridge of this name exists.
    BridgeNotFound { name: String },
    /// The receiving half of this bridge was taken before.
    ReceiverTaken { name: String },
    /// The sending half of this bridge was taken before.
    SenderTaken { name: String },
    /// A router was spawned before, which sealed the routes.
    RoutesSealed,
    /// A forwarding map without any topic.
    EmptyTopicMap,
}

/// Mathematical value of a [`ConfigError`].
pub enum ConfigFault {
    DuplicateBridge { name: Seq<char> },
    BridgeNotFound { name: Seq<char> },
    ReceiverTaken { name: Seq<char> },
    SenderTaken { name: Seq<char> },
    RoutesSealed,
    EmptyTopicMap,
}

impl View for ConfigError {
    type V = ConfigFault;

    open spec fn view(&self) -> ConfigFault {
        match self {
            ConfigError::DuplicateBridge { name } => ConfigFault::DuplicateBridge { name: name@ },
            ConfigError::BridgeNotFound { name } => ConfigFault::BridgeNotFound { name: name@ },
            ConfigError::ReceiverTaken { name } => ConfigFault::ReceiverTaken { name: name@ },
            ConfigError::SenderTaken { name } => ConfigFault::SenderTaken { name: name@ },
            ConfigError::RoutesSealed => ConfigFault::RoutesSealed,
            ConfigError::EmptyTopicMap => ConfigFault::EmptyTopicMap,
        }
    }
}

/// What a wiring call answered, as a mathematical value.
pub open spec fn outcome(r: Result<(), ConfigError>) -> Result<(), ConfigFault> {
    match r {
        Ok(_) => Ok(()),
        Err(e) => Err(e@),
    }
}

} // verus!
