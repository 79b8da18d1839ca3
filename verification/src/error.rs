//! The failures this layer reports.

use vstd::prelude::*;

verus! {

/// Why an operation of this layer did not succeed.
#[derive(Clone, Copy, Debug, PartialEq, Eq, Structural)]
pub enum NodeError {
    /// The embedded node failed to initialise or start.
    NodeStartError,
    /// `start` was called on an orchestrator that was started before.
    AlreadyStarted,
    /// The orchestrator was asked for a step that its state does not allow.
    OutOfTurn,
    /// A channel to close is not in the current channel list.
    ChannelNotFound,
    /// A channel to open came without an address, and no known peer
    /// supplies one.
    PeerAddressRequired,
    /// A handle to unsubscribe is not registered.
    SubscriberNotFound,
    /// Connecting to the broker, declaring the exchange or publishing failed.
    BrokerConnectionError,
    /// A payment identifier is not 64 hexadecimal digits.
    InvalidPaymentHash,
    /// The random source gave nothing that can serve as an identifier.
    EntropyUnavailable,
}

} // verus!
