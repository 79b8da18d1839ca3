//! The events an embedded node reports, as plain values.

use vstd::prelude::*;

verus! {

/// One output of a transaction: the transaction's identifier and the
/// output's position in it.
#[derive(Clone, Copy, Debug, PartialEq, Eq)]
pub struct OutPoint {
    pub txid: [u8; 32],
    pub vout: u32,
}

/// What kind of thing an event reports, without its payload.
#[derive(Clone, Copy, Debug, PartialEq, Eq, Structural)]
pub enum EventKind {
    PaymentSuccessful,
    PaymentFailed,
    PaymentReceived,
    ChannelPending,
    ChannelReady,
    ChannelClosed,
}

/// Something the embedded node reports. A value of this type is never
/// changed after it was made; each delivery target gets a copy.
#[derive(Clone, Copy, Debug, PartialEq, Eq)]
#[allow(inconsistent_fields)]
pub enum NodeEvent {
    /// A payment we sent arrived.
    PaymentSuccessful { payment_hash: [u8; 32] },
    /// A payment we sent failed.
    PaymentFailed { payment_hash: [u8; 32] },
    /// A payment arrived for us; the amount is in thousandths of a satoshi.
    PaymentReceived { payment_hash: [u8; 32], amount_msat: u64 },
    /// A channel was funded and waits for confirmation.
    ChannelPending {
        channel_id: [u8; 32],
        user_channel_id: u128,
        former_temporary_channel_id: [u8; 32],
        counterparty_node_id: [u8; 33],
        funding_txo: OutPoint,
    },
    /// A channel can be used.
    ChannelReady {
        channel_id: [u8; 32],
        user_channel_id: u128,
        counterparty_node_id: Option<[u8; 33]>,
    },
    /// A channel was closed.
    ChannelClosed {
        channel_id: [u8; 32],
        user_channel_id: u128,
        counterparty_node_id: Option<[u8; 33]>,
    },
}

impl EventKind {
    /// The kind's stable name: its identifier in lower case.
    pub open spec fn name_spec(self) -> Seq<char> {
        match self {
            EventKind::PaymentSuccessful => "paymentsuccessful"@,
            EventKind::PaymentFailed => "paymentfailed"@,
            EventKind::PaymentReceived => "paymentreceived"@,
            EventKind::ChannelPending => "channelpending"@,
            EventKind::ChannelReady => "channelready"@,
            EventKind::ChannelClosed => "channelclosed"@,
        }
    }

    /// Whether events of this kind leave the process through the broker.
    /// Only received payments do; every other kind stays inside.
    pub open spec fn is_published_spec(self) -> bool {
        self == EventKind::PaymentReceived
    }

    /// The kind's stable name, used as the routing key of a publication.
    pub fn name(&self) -> (name: &'static str)
        ensures
            name@ == self.name_spec(),
    {
        match self {
            EventKind::PaymentSuccessful => "paymentsuccessful",
            EventKind::PaymentFailed => "paymentfailed",
            EventKind::PaymentReceived => "paymentreceived",
            EventKind::ChannelPending => "channelpending",
            EventKind::ChannelReady => "channelready",
            EventKind::ChannelClosed => "channelclosed",
        }
    }

    /// Whether events of this kind leave the process through the broker.
    pub fn is_published(&self) -> (published: bool)
        ensures
            published == self.is_published_spec(),
    {
        match self {
            EventKind::PaymentReceived => true,
            _ => false,
        }
    }
}

impl NodeEvent {
    /// The kind of this event.
    pub open spec fn kind_spec(self) -> EventKind {
        match self {
            NodeEvent::PaymentSuccessful { .. } => EventKind::PaymentSuccessful,
            NodeEvent::PaymentFailed { .. } => EventKind::PaymentFailed,
            NodeEvent::PaymentReceived { .. } => EventKind::PaymentReceived,
            NodeEvent::ChannelPending { .. } => EventKind::ChannelPending,
            NodeEvent::ChannelReady { .. } => EventKind::ChannelReady,
            NodeEvent::ChannelClosed { .. } => EventKind::ChannelClosed,
        }
    }

    /// The kind of this event.
    pub fn kind(&self) -> (kind: EventKind)
        ensures
            kind == self.kind_spec(),
    {
        match self {
            NodeEvent::PaymentSuccessful { .. } => EventKind::PaymentSuccessful,
            NodeEvent::PaymentFailed { .. } => EventKind::PaymentFailed,
            NodeEvent::PaymentReceived { .. } => EventKind::PaymentReceived,
            NodeEvent::ChannelPending { .. } => EventKind::ChannelPending,
            NodeEvent::ChannelReady { .. } => EventKind::ChannelReady,
            NodeEvent::ChannelClosed { .. } => EventKind::ChannelClosed,
        }
    }
}

} // verus!
