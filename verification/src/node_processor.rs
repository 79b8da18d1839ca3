//! The lifecycle orchestrator: it tracks whether the embedded node was
//! started, decides when the node may be asked for its next event, holds
//! each event until it is fanned out and acknowledged, and resolves the
//! arguments of the node's channel operations.
//!
//! The node itself, the broker connection and the waiting between polls
//! belong to the driver around this type. The driver performs what a step
//! returns and reports back; every step refuses to run out of turn.

use vstd::prelude::*;
use tokio::sync::mpsc::Sender;
use crate::broker::BrokerMessage;
use crate::config::RabbitMqConfig;
use crate::error::NodeError;
use crate::event::NodeEvent;
use crate::node_events::{accepted_before, count_refused, fan_out, first_position, NodeEvents};
use crate::payment_hash::{
    all_zero, bytes_of, hex_bytes, is_hex_hash, random_bytes, same_bytes, test_hash_spec,
    test_payment_hash, text_of,
};

verus! {

/// How long the driver waits after a poll that brought no event, in
/// milliseconds.
pub const POLL_INTERVAL_MILLIS: u64 = 100;

/// The amount of an injected test payment, in thousandths of a satoshi.
pub const TEST_AMOUNT_MSAT: u64 = 350000;

/// Whether the embedded node was started.
#[derive(Clone, Copy, Debug, PartialEq, Eq, Structural)]
pub enum Lifecycle {
    /// `start` was not called yet, or the node failed to start.
    NotStarted,
    /// `start` was called; the node's own start-up has not reported yet.
    Starting,
    /// The node runs and is polled.
    Running,
}

/// Where the orchestrator stands between two requests to the node.
#[derive(Clone, Copy, Debug, PartialEq, Eq)]
pub enum Cycle {
    /// Nothing is held: the node may be asked, a test event may be injected.
    Ready,
    /// The node was asked for its next event and has not answered yet.
    Polling,
    /// An event was obtained and is not fanned out yet. `from_node` tells
    /// an event of the node from an injected one.
    Holding { event: NodeEvent, from_node: bool },
    /// An event of the node was fanned out; the node was not told yet.
    Unacknowledged,
}

/// The orchestrator's state as far as its steps depend on it.
#[derive(Clone, Copy, Debug)]
pub struct Progress {
    pub lifecycle: Lifecycle,
    pub cycle: Cycle,
}

/// What the node answered to a request for its next event.
#[derive(Clone, Copy, Debug)]
pub enum Polled {
    /// The next pending event.
    Event(NodeEvent),
    /// No event is pending.
    Empty,
    /// The request failed.
    Failed,
}

/// One step of the orchestrator.
#[derive(Clone, Copy, Debug)]
pub enum Step {
    Start,
    Started { node_ok: bool },
    BeginPoll,
    Polled(Polled),
    Inject(NodeEvent),
    Deliver,
    Acknowledge,
}

/// The state after a step, or `None` where the step is out of turn.
pub open spec fn advance(now: Progress, step: Step) -> Option<Progress> {
    match step {
        Step::Start => if now.lifecycle == Lifecycle::NotStarted {
            Some(Progress { lifecycle: Lifecycle::Starting, cycle: now.cycle })
        } else {
            None
        },
        Step::Started { node_ok } => if now.lifecycle == Lifecycle::Starting {
            Some(
                Progress {
                    lifecycle: if node_ok {
                        Lifecycle::Running
                    } else {
                        Lifecycle::NotStarted
                    },
                    cycle: now.cycle,
                },
            )
        } else {
            None
        },
        Step::BeginPoll => if now.lifecycle == Lifecycle::Running && now.cycle is Ready {
            Some(Progress { lifecycle: now.lifecycle, cycle: Cycle::Polling })
        } else {
            None
        },
        Step::Polled(polled) => if now.cycle is Polling {
            Some(
                Progress {
                    lifecycle: now.lifecycle,
                    cycle: match polled {
                        Polled::Event(event) => Cycle::Holding { event, from_node: true },
                        _ => Cycle::Ready,
                    },
                },
            )
        } else {
            None
        },
        Step::Inject(event) => if now.cycle is Ready {
            Some(
                Progress {
                    lifecycle: now.lifecycle,
                    cycle: Cycle::Holding { event, from_node: false },
                },
            )
        } else {
            None
        },
        Step::Deliver => match now.cycle {
            Cycle::Holding { event, from_node } => Some(
                Progress {
                    lifecycle: now.lifecycle,
                    cycle: if from_node {
                        Cycle::Unacknowledged
                    } else {
                        Cycle::Ready
                    },
                },
            ),
            _ => None,
        },
        Step::Acknowledge => if now.cycle is Unacknowledged {
            Some(Progress { lifecycle: now.lifecycle, cycle: Cycle::Ready })
        } else {
            None
        },
    }
}

/// An event on its way out: what is to be published for it first, if
/// anything, before `deliver` fans it out.
#[derive(Debug)]
pub struct Dispatch {
    pub event: NodeEvent,
    pub publication: Option<BrokerMessage>,
}

/// What the driver does after it reported the node's answer.
#[derive(Debug)]
pub enum PollAction {
    /// An event was obtained: publish, then call `deliver`.
    Dispatch(Dispatch),
    /// Nothing was obtained: wait so many milliseconds, then poll again.
    Wait { millis: u64 },
}

/// The outcome of a fan-out.
#[derive(Debug)]
pub struct Delivery {
    /// One answer per subscriber that was registered: whether it took the
    /// event.
    pub report: Vec<bool>,
    /// How many subscribers did not take the event and were removed.
    pub refused: usize,
    /// `BrokerConnectionError` when the event was to be published and the
    /// publication failed.
    pub failure: Option<NodeError>,
    /// Whether the node is to be told that its event was handled.
    pub acknowledge: bool,
}

/// A channel of the node, as far as closing it needs to know it.
#[derive(Clone, Copy, Debug, PartialEq, Eq)]
pub struct ChannelDetails {
    pub channel_id: [u8; 32],
    pub counterparty_node_id: [u8; 33],
}

/// A peer the node knows.
#[derive(Debug, PartialEq, Eq)]
pub struct PeerDetails {
    pub node_id: [u8; 33],
    pub address: String,
    pub is_persisted: bool,
    pub is_connected: bool,
}

/// The first channel of a list with the given identifier.
pub open spec fn find_channel(channels: Seq<ChannelDetails>, channel_id: Seq<u8>) -> Option<
    ChannelDetails,
>
    decreases channels.len(),
{
    if channels.len() == 0 {
        None
    } else if channels[0].channel_id@ == channel_id {
        Some(channels[0])
    } else {
        find_channel(channels.drop_first(), channel_id)
    }
}

/// The first peer of a list with the given node identifier.
pub open spec fn find_peer(peers: Seq<PeerDetails>, node_id: Seq<u8>) -> Option<PeerDetails>
    decreases peers.len(),
{
    if peers.len() == 0 {
        None
    } else if peers[0].node_id@ == node_id {
        Some(peers[0])
    } else {
        find_peer(peers.drop_first(), node_id)
    }
}

/// The address at which a channel is opened: the one that was supplied,
/// else the address of the first known peer with that node identifier.
pub open spec fn resolve_address(
    peers: Seq<PeerDetails>,
    node_id: Seq<u8>,
    address: Option<Seq<char>>,
) -> Option<Seq<char>> {
    match address {
        Some(address) => Some(address),
        None => match find_peer(peers, node_id) {
            Some(peer) => Some(peer.address@),
            None => None,
        },
    }
}

/// Owns the dispatcher and keeps track of the node's lifecycle.
pub struct NodeProcessor {
    events: NodeEvents,
    progress: Progress,
}

impl NodeProcessor {
    /// The orchestrator's state.
    pub closed spec fn progress(&self) -> Progress {
        self.progress
    }

    /// The dispatcher that the orchestrator owns.
    pub closed spec fn dispatcher(&self) -> NodeEvents {
        self.events
    }

    /// An orchestrator whose node was not started, with a dispatcher
    /// without subscribers.
    pub fn new(rabbitmq_config: Option<RabbitMqConfig>) -> (processor: Self)
        ensures
            processor.progress().lifecycle == Lifecycle::NotStarted,
            processor.progress().cycle is Ready,
            processor.dispatcher().listeners@.len() == 0,
            processor.dispatcher().rabbitmq_config == rabbitmq_config,
    {
        NodeProcessor {
            events: NodeEvents::new(rabbitmq_config),
            progress: Progress { lifecycle: Lifecycle::NotStarted, cycle: Cycle::Ready },
        }
    }

    /// Whether the node was started.
    pub fn lifecycle(&self) -> (lifecycle: Lifecycle)
        ensures
            lifecycle == self.progress().lifecycle,
    {
        self.progress.lifecycle
    }

    /// Where the orchestrator stands between two requests to the node.
    pub fn cycle(&self) -> (cycle: Cycle)
        ensures
            cycle == self.progress().cycle,
    {
        self.progress.cycle
    }

    /// The dispatcher that the orchestrator owns.
    pub fn events(&self) -> (events: &NodeEvents)
        ensures
            *events == self.dispatcher(),
    {
        &self.events
    }

    /// Registers a subscriber, as `NodeEvents::subscribe` does.
    pub fn subscribe(&mut self, listener: Sender<NodeEvent>)
        ensures
            final(self).progress() == old(self).progress(),
            final(self).dispatcher().listeners@.len() == old(self).dispatcher().listeners@.len()
                + 1,
            final(self).dispatcher().listeners@.drop_last() == old(self).dispatcher().listeners@,
            final(self).dispatcher().listeners@.last().handle() == listener,
            final(self).dispatcher().listeners@.last().delivered() == Seq::<NodeEvent>::empty(),
            final(self).dispatcher().rabbitmq_config == old(self).dispatcher().rabbitmq_config,
    {
        self.events.subscribe(listener);
    }

    /// Removes a subscriber, as `NodeEvents::unsubscribe` does.
    pub fn unsubscribe(&mut self, listener: &Sender<NodeEvent>) -> (outcome: Result<
        (),
        NodeError,
    >)
        ensures
            final(self).progress() == old(self).progress(),
            ({
                let before = old(self).dispatcher().listeners@;
                let at = first_position(before, *listener);
                if at < before.len() {
                    &&& outcome is Ok
                    &&& final(self).dispatcher().listeners@ == before.remove(at)
                } else {
                    &&& outcome == Err::<(), NodeError>(NodeError::SubscriberNotFound)
                    &&& final(self).dispatcher().listeners@ == before
                }
            }),
            final(self).dispatcher().rabbitmq_config == old(self).dispatcher().rabbitmq_config,
    {
        self.events.unsubscribe(listener)
    }

    /// Begins the start-up. Succeeds once: the driver then starts the node
    /// and reports with `started`. On an orchestrator that was started
    /// before, it fails with `AlreadyStarted` and changes nothing.
    pub fn start(&mut self) -> (outcome: Result<(), NodeError>)
        ensures
            final(self).dispatcher() == old(self).dispatcher(),
            match advance(old(self).progress(), Step::Start) {
                Some(next) => outcome is Ok && final(self).progress() == next,
                None => {
                    &&& outcome == Err::<(), NodeError>(NodeError::AlreadyStarted)
                    &&& final(self).progress() == old(self).progress()
                },
            },
    {
        match self.progress.lifecycle {
            Lifecycle::NotStarted => {
                self.progress.lifecycle = Lifecycle::Starting;
                Ok(())
            },
            _ => Err(NodeError::AlreadyStarted),
        }
    }

    /// Takes the report of the node's own start-up. When the node started,
    /// the orchestrator runs, and the driver begins to poll. When it did
    /// not, the orchestrator is back where it was before `start`, and the
    /// failure is `NodeStartError`. Out of turn it fails with `OutOfTurn`
    /// and changes nothing.
    pub fn started(&mut self, node_ok: bool) -> (outcome: Result<(), NodeError>)
        ensures
            final(self).dispatcher() == old(self).dispatcher(),
            match advance(old(self).progress(), Step::Started { node_ok }) {
                Some(next) => final(self).progress() == next && if node_ok {
                    outcome is Ok
                } else {
                    outcome == Err::<(), NodeError>(NodeError::NodeStartError)
                },
                None => {
                    &&& outcome == Err::<(), NodeError>(NodeError::OutOfTurn)
                    &&& final(self).progress() == old(self).progress()
                },
            },
    {
        match self.progress.lifecycle {
            Lifecycle::Starting => {
                if node_ok {
                    self.progress.lifecycle = Lifecycle::Running;
                    Ok(())
                } else {
                    self.progress.lifecycle = Lifecycle::NotStarted;
                    Err(NodeError::NodeStartError)
                }
            },
            _ => Err(NodeError::OutOfTurn),
        }
    }

    /// Asks for leave to request the node's next event. It is given only
    /// while the node runs and nothing is held; otherwise the step fails
    /// with `OutOfTurn` and changes nothing.
    pub fn begin_poll(&mut self) -> (outcome: Result<(), NodeError>)
        ensures
            final(self).dispatcher() == old(self).dispatcher(),
            match advance(old(self).progress(), Step::BeginPoll) {
                Some(next) => outcome is Ok && final(self).progress() == next,
                None => {
                    &&& outcome == Err::<(), NodeError>(NodeError::OutOfTurn)
                    &&& final(self).progress() == old(self).progress()
                },
            },
    {
        match (self.progress.lifecycle, self.progress.cycle) {
            (Lifecycle::Running, Cycle::Ready) => {
                self.progress.cycle = Cycle::Polling;
                Ok(())
            },
            _ => Err(NodeError::OutOfTurn),
        }
    }

    /// Takes the node's answer to a request. An event is held and comes
    /// back with what is to be published for it; the driver publishes and
    /// then calls `deliver`. Without an event, the driver is told to wait
    /// before it polls again. Out of turn the step fails with `OutOfTurn`
    /// and changes nothing.
    pub fn poll_result(&mut self, polled: Polled) -> (outcome: Result<PollAction, NodeError>)
        ensures
            final(self).dispatcher() == old(self).dispatcher(),
            match advance(old(self).progress(), Step::Polled(polled)) {
                Some(next) => final(self).progress() == next && match polled {
                    Polled::Event(event) => outcome matches Ok(PollAction::Dispatch(dispatch))
                        && dispatch.event == event && old(self).dispatcher().publishes(
                        event,
                        dispatch.publication,
                    ),
                    _ => outcome matches Ok(PollAction::Wait { millis }) && millis
                        == POLL_INTERVAL_MILLIS,
                },
                None => {
                    &&& outcome matches Err(error)
                    &&& error == NodeError::OutOfTurn
                    &&& final(self).progress() == old(self).progress()
                },
            },
    {
        match self.progress.cycle {
            Cycle::Polling => match polled {
                Polled::Event(event) => {
                    self.progress.cycle = Cycle::Holding { event, from_node: true };
                    let publication = self.events.publication(&event);
                    Ok(PollAction::Dispatch(Dispatch { event, publication }))
                },
                _ => {
                    self.progress.cycle = Cycle::Ready;
                    Ok(PollAction::Wait { millis: POLL_INTERVAL_MILLIS })
                },
            },
            _ => Err(NodeError::OutOfTurn),
        }
    }

    /// Fans the held event out to every subscriber, as `NodeEvents::notify`
    /// does. `published` says whether the publication that came with the
    /// event went through; it counts only where there was one to make. A
    /// failed publication is reported in the outcome and holds up nothing:
    /// the fan-out is the same either way. After an event of the node the
    /// driver acknowledges it to the node and calls `acknowledged`; an
    /// injected event is done with. While no event is held the step fails
    /// with `OutOfTurn` and changes nothing.
    pub fn deliver(&mut self, published: bool) -> (outcome: Result<Delivery, NodeError>)
        ensures
            final(self).dispatcher().rabbitmq_config == old(self).dispatcher().rabbitmq_config,
            match advance(old(self).progress(), Step::Deliver) {
                Some(next) => {
                    &&& final(self).progress() == next
                    &&& outcome matches Ok(delivery)
                    &&& old(self).progress().cycle matches Cycle::Holding { event, from_node }
                    &&& delivery.acknowledge == from_node
                    &&& delivery.failure == if old(self).dispatcher().rabbitmq_config is Some
                        && event is PaymentReceived && !published {
                        Some(NodeError::BrokerConnectionError)
                    } else {
                        None
                    }
                    &&& delivery.refused == delivery.report@.len() - accepted_before(
                        delivery.report@,
                        delivery.report@.len() as int,
                    )
                    &&& delivery.report@.len() == old(self).dispatcher().listeners@.len()
                    &&& final(self).dispatcher().listeners@ == fan_out(
                        old(self).dispatcher().listeners@,
                        delivery.report@,
                        event,
                    )
                },
                None => {
                    &&& outcome matches Err(error)
                    &&& error == NodeError::OutOfTurn
                    &&& final(self).progress() == old(self).progress()
                    &&& final(self).dispatcher() == old(self).dispatcher()
                },
            },
    {
        match self.progress.cycle {
            Cycle::Holding { event, from_node } => {
                let due = self.events.publication(&event).is_some();
                let failure = if due && !published {
                    Some(NodeError::BrokerConnectionError)
                } else {
                    None
                };
                let report = self.events.notify(event);
                let refused = count_refused(&report);
                self.progress.cycle = if from_node {
                    Cycle::Unacknowledged
                } else {
                    Cycle::Ready
                };
                Ok(Delivery { report, refused, failure, acknowledge: from_node })
            },
            _ => Err(NodeError::OutOfTurn),
        }
    }

    /// Holds an event that did not come from the node, to be fanned out
    /// by `deliver` like any other. It comes back with what is to be
    /// published for it. While something else is held or awaited the step
    /// fails with `OutOfTurn` and changes nothing.
    pub fn inject(&mut self, event: NodeEvent) -> (outcome: Result<Dispatch, NodeError>)
        ensures
            final(self).dispatcher() == old(self).dispatcher(),
            match advance(old(self).progress(), Step::Inject(event)) {
                Some(next) => {
                    &&& final(self).progress() == next
                    &&& outcome matches Ok(dispatch)
                    &&& dispatch.event == event
                    &&& old(self).dispatcher().publishes(event, dispatch.publication)
                },
                None => {
                    &&& outcome == Err::<Dispatch, NodeError>(NodeError::OutOfTurn)
                    &&& final(self).progress() == old(self).progress()
                },
            },
    {
        match self.progress.cycle {
            Cycle::Ready => {
                self.progress.cycle = Cycle::Holding { event, from_node: false };
                let publication = self.events.publication(&event);
                Ok(Dispatch { event, publication })
            },
            _ => Err(NodeError::OutOfTurn),
        }
    }

    /// Injects a test payment whose identifier is chosen from what was
    /// supplied and from what a random source gave: a received payment of
    /// `TEST_AMOUNT_MSAT` with the supplied identifier, if one was
    /// supplied, else with the random one. Out of turn it fails with
    /// `OutOfTurn`; an identifier that cannot be had is refused with the
    /// error that `test_hash_spec` gives. A failure changes nothing.
    pub fn inject_test_payment(
        &mut self,
        payment_hash: Option<String>,
        entropy: Option<[u8; 32]>,
    ) -> (outcome: Result<Dispatch, NodeError>)
        ensures
            final(self).dispatcher() == old(self).dispatcher(),
            outcome is Err ==> final(self).progress() == old(self).progress(),
            !(old(self).progress().cycle is Ready) ==> outcome == Err::<Dispatch, NodeError>(
                NodeError::OutOfTurn,
            ),
            old(self).progress().cycle is Ready ==> match test_hash_spec(
                text_of(payment_hash),
                bytes_of(entropy),
            ) {
                Ok(bytes) => {
                    &&& outcome matches Ok(dispatch)
                    &&& dispatch.event matches NodeEvent::PaymentReceived {
                        payment_hash: hash,
                        amount_msat,
                    }
                    &&& hash@ == bytes
                    &&& amount_msat == TEST_AMOUNT_MSAT
                    &&& advance(old(self).progress(), Step::Inject(dispatch.event)) == Some(
                        final(self).progress(),
                    )
                    &&& old(self).dispatcher().publishes(dispatch.event, dispatch.publication)
                },
                Err(refusal) => outcome == Err::<Dispatch, NodeError>(refusal),
            },
    {
        match self.progress.cycle {
            Cycle::Ready => match test_payment_hash(&payment_hash, entropy) {
                Ok(hash) => self.inject(
                    NodeEvent::PaymentReceived {
                        payment_hash: hash,
                        amount_msat: TEST_AMOUNT_MSAT,
                    },
                ),
                Err(refusal) => Err(refusal),
            },
            _ => Err(NodeError::OutOfTurn),
        }
    }

    /// Injects a test payment, to check the way from the orchestrator to
    /// the subscribers without a real payment. With an identifier in its
    /// outside form, the payment carries it; without, it carries one
    /// drawn from the operating system's random source, which is no
    /// secret. The event is held; the driver publishes what comes back
    /// and calls `deliver`. It behaves as `inject_test_payment` does on
    /// what the random source gave.
    pub fn trigger_payment_event(&mut self, payment_hash: Option<String>) -> (outcome: Result<
        Dispatch,
        NodeError,
    >)
        ensures
            final(self).dispatcher() == old(self).dispatcher(),
            outcome is Err ==> final(self).progress() == old(self).progress(),
            !(old(self).progress().cycle is Ready) ==> outcome == Err::<Dispatch, NodeError>(
                NodeError::OutOfTurn,
            ),
            outcome matches Ok(dispatch) ==> {
                &&& dispatch.event matches NodeEvent::PaymentReceived {
                    payment_hash: hash,
                    amount_msat,
                }
                &&& amount_msat == TEST_AMOUNT_MSAT
                &&& match payment_hash {
                    Some(text) => is_hex_hash(text@) && hash@ == hex_bytes(text@),
                    None => !all_zero(hash@),
                }
                &&& advance(old(self).progress(), Step::Inject(dispatch.event)) == Some(
                    final(self).progress(),
                )
                &&& old(self).dispatcher().publishes(dispatch.event, dispatch.publication)
            },
            old(self).progress().cycle is Ready && payment_hash is Some ==> (outcome is Ok
                <==> is_hex_hash(payment_hash.unwrap()@)),
            old(self).progress().cycle is Ready && outcome is Err ==> outcome == Err::<
                Dispatch,
                NodeError,
            >(
                if payment_hash is Some {
                    NodeError::InvalidPaymentHash
                } else {
                    NodeError::EntropyUnavailable
                },
            ),
    {
        let entropy = if payment_hash.is_none() {
            random_bytes()
        } else {
            None
        };
        self.inject_test_payment(payment_hash, entropy)
    }

    /// Finds the counterparty of the channel that is to be closed, which
    /// the node's own close operation asks for: that of the first channel
    /// in `channels` with the identifier. A channel that is not in the
    /// list gives `ChannelNotFound`, and the node is not to be called.
    pub fn close_channel(&self, channels: &Vec<ChannelDetails>, channel_id: &[u8; 32]) -> (outcome:
        Result<[u8; 33], NodeError>)
        ensures
            match find_channel(channels@, channel_id@) {
                Some(channel) => outcome matches Ok(counterparty) && counterparty
                    == channel.counterparty_node_id,
                None => outcome matches Err(error) && error == NodeError::ChannelNotFound,
            },
    {
        let mut i: usize = 0;
        assert(channels@.skip(0) == channels@);
        while i < channels.len()
            invariant
                i <= channels@.len(),
                find_channel(channels@, channel_id@) == find_channel(
                    channels@.skip(i as int),
                    channel_id@,
                ),
            decreases channels@.len() - i,
        {
            proof {
                assert(channels@.skip(i as int).drop_first() == channels@.skip(i as int + 1));
            }
            if same_bytes(&channels[i].channel_id, channel_id) {
                return Ok(channels[i].counterparty_node_id);
            }
            i += 1;
        }
        Err(NodeError::ChannelNotFound)
    }

    /// Settles the address at which a channel to `node_id` is opened: the
    /// one that was supplied, else that of the first peer in `peers` with
    /// this node identifier. Without either it fails with
    /// `PeerAddressRequired`.
    pub fn open_channel(
        &self,
        peers: &Vec<PeerDetails>,
        node_id: &[u8; 33],
        address: Option<String>,
    ) -> (outcome: Result<String, NodeError>)
        ensures
            match resolve_address(peers@, node_id@, text_of(address)) {
                Some(resolved) => outcome matches Ok(found) && found@ == resolved,
                None => outcome matches Err(error) && error == NodeError::PeerAddressRequired,
            },
    {
        match address {
            Some(address) => Ok(address),
            None => {
                let mut i: usize = 0;
                assert(peers@.skip(0) == peers@);
                while i < peers.len()
                    invariant
                        i <= peers@.len(),
                        address is None,
                        find_peer(peers@, node_id@) == find_peer(peers@.skip(i as int), node_id@),
                    decreases peers@.len() - i,
                {
                    proof {
                        assert(peers@.skip(i as int).drop_first() == peers@.skip(i as int + 1));
                    }
                    if same_bytes(&peers[i].node_id, node_id) {
                        return Ok(peers[i].address.clone());
                    }
                    i += 1;
                }
                Err(NodeError::PeerAddressRequired)
            },
        }
    }

    /// Records that the node was told that its event was handled. The
    /// node may then be asked for the next one. Out of turn the step
    /// fails with `OutOfTurn` and changes nothing.
    pub fn acknowledged(&mut self) -> (outcome: Result<(), NodeError>)
        ensures
            final(self).dispatcher() == old(self).dispatcher(),
            match advance(old(self).progress(), Step::Acknowledge) {
                Some(next) => outcome is Ok && final(self).progress() == next,
                None => {
                    &&& outcome == Err::<(), NodeError>(NodeError::OutOfTurn)
                    &&& final(self).progress() == old(self).progress()
                },
            },
    {
        match self.progress.cycle {
            Cycle::Unacknowledged => {
                self.progress.cycle = Cycle::Ready;
                Ok(())
            },
            _ => Err(NodeError::OutOfTurn),
        }
    }
}


/// The state after the first `count` of a run of steps, or `None` where
/// one of them was out of turn.
pub open spec fn progress_after(start: Progress, steps: Seq<Step>, count: int) -> Option<Progress>
    decreases count,
{
    if count <= 0 {
        Some(start)
    } else {
        match progress_after(start, steps, count - 1) {
            Some(now) => advance(now, steps[count - 1]),
            None => None,
        }
    }
}

/// Whether an event of the node is held and not fanned out yet.
pub open spec fn holds_node_event(now: Progress, event: NodeEvent) -> bool {
    now.cycle == (Cycle::Holding { event, from_node: true })
}

proof fn lemma_progress_prefix(start: Progress, steps: Seq<Step>, count: int, shorter: int)
    requires
        shorter <= count,
        progress_after(start, steps, count) is Some,
    ensures
        progress_after(start, steps, shorter) is Some,
    decreases count - shorter,
{
    if shorter < count && count > 0 {
        lemma_progress_prefix(start, steps, count - 1, shorter);
    }
}

proof fn lemma_held_until_acknowledged(
    start: Progress,
    steps: Seq<Step>,
    event: NodeEvent,
    got: int,
    upto: int,
) -> (between: (int, int))
    requires
        0 <= got < upto <= steps.len(),
        progress_after(start, steps, upto) is Some,
        steps[got] == Step::Polled(Polled::Event(event)),
    ensures
        ({
            let now = progress_after(start, steps, upto).unwrap();
            let (delivered, acknowledged) = between;
            &&& delivered == -1 ==> acknowledged == -1 && holds_node_event(now, event)
            &&& delivered != -1 ==> got < delivered < upto && steps[delivered] is Deliver
                && holds_node_event(progress_after(start, steps, delivered).unwrap(), event)
            &&& delivered != -1 && acknowledged == -1 ==> now.cycle is Unacknowledged
            &&& acknowledged != -1 ==> delivered != -1 && delivered < acknowledged < upto
                && steps[acknowledged] is Acknowledge
        }),
    decreases upto - got,
{
    lemma_progress_prefix(start, steps, upto, upto - 1);
    if upto == got + 1 {
        (-1, -1)
    } else {
        let (delivered, acknowledged) = lemma_held_until_acknowledged(
            start,
            steps,
            event,
            got,
            upto - 1,
        );
        if delivered == -1 {
            if steps[upto - 1] is Deliver {
                (upto - 1, -1)
            } else {
                (-1, -1)
            }
        } else if acknowledged == -1 {
            if steps[upto - 1] is Acknowledge {
                (delivered, upto - 1)
            } else {
                (delivered, -1)
            }
        } else {
            (delivered, acknowledged)
        }
    }
}

/// The node is not asked again before its event is through: in a run of
/// steps that were all in turn, between the step that obtained an event
/// of the node and any later request for the next one, that event was
/// fanned out and, after that, acknowledged.
pub proof fn lemma_poll_waits_for_delivery(
    start: Progress,
    steps: Seq<Step>,
    event: NodeEvent,
    got: int,
    next: int,
) -> (between: (int, int))
    requires
        progress_after(start, steps, steps.len() as int) is Some,
        0 <= got < next < steps.len(),
        steps[got] == Step::Polled(Polled::Event(event)),
        steps[next] is BeginPoll,
    ensures
        got < between.0 < between.1 < next,
        steps[between.0] is Deliver,
        holds_node_event(progress_after(start, steps, between.0).unwrap(), event),
        steps[between.1] is Acknowledge,
{
    lemma_progress_prefix(start, steps, steps.len() as int, next + 1);
    lemma_progress_prefix(start, steps, steps.len() as int, next);
    lemma_held_until_acknowledged(start, steps, event, got, next)
}

/// The node's event is acknowledged only after it was fanned out: in a
/// run of steps that were all in turn and that began with nothing held,
/// every acknowledgement comes after a step that fanned out an event of
/// the node.
pub proof fn lemma_acknowledge_follows_delivery(
    start: Progress,
    steps: Seq<Step>,
    acknowledged: int,
) -> (delivered: int)
    requires
        start.cycle is Ready,
        progress_after(start, steps, steps.len() as int) is Some,
        0 <= acknowledged < steps.len(),
        steps[acknowledged] is Acknowledge,
    ensures
        0 <= delivered < acknowledged,
        steps[delivered] is Deliver,
        progress_after(start, steps, delivered).unwrap().cycle matches Cycle::Holding {
            from_node,
            ..
        } && from_node,
{
    lemma_progress_prefix(start, steps, steps.len() as int, acknowledged + 1);
    lemma_progress_prefix(start, steps, steps.len() as int, acknowledged);
    lemma_unacknowledged_since(start, steps, acknowledged)
}

proof fn lemma_unacknowledged_since(start: Progress, steps: Seq<Step>, upto: int) -> (delivered:
    int)
    requires
        start.cycle is Ready,
        0 <= upto <= steps.len(),
        progress_after(start, steps, upto) is Some,
        progress_after(start, steps, upto).unwrap().cycle is Unacknowledged,
    ensures
        0 <= delivered < upto,
        steps[delivered] is Deliver,
        progress_after(start, steps, delivered).unwrap().cycle matches Cycle::Holding {
            from_node,
            ..
        } && from_node,
    decreases upto,
{
    lemma_progress_prefix(start, steps, upto, upto - 1);
    if progress_after(start, steps, upto - 1).unwrap().cycle is Unacknowledged {
        lemma_unacknowledged_since(start, steps, upto - 1)
    } else {
        upto - 1
    }
}

/// The node is started once: in a run of steps that were all in turn, no
/// step after the one that reported the node as started begins or reports
/// a start-up again.
pub proof fn lemma_node_starts_once(start: Progress, steps: Seq<Step>, started: int, later: int)
    requires
        progress_after(start, steps, steps.len() as int) is Some,
        0 <= started < later < steps.len(),
        steps[started] == (Step::Started { node_ok: true }),
    ensures
        !(steps[later] is Start),
        !(steps[later] is Started),
{
    lemma_progress_prefix(start, steps, steps.len() as int, later + 1);
    lemma_progress_prefix(start, steps, steps.len() as int, later);
    lemma_keeps_running(start, steps, started, later);
}

proof fn lemma_keeps_running(start: Progress, steps: Seq<Step>, started: int, upto: int)
    requires
        0 <= started < upto <= steps.len(),
        progress_after(start, steps, upto) is Some,
        steps[started] == (Step::Started { node_ok: true }),
    ensures
        progress_after(start, steps, upto).unwrap().lifecycle == Lifecycle::Running,
    decreases upto - started,
{
    lemma_progress_prefix(start, steps, upto, upto - 1);
    if upto > started + 1 {
        lemma_keeps_running(start, steps, started, upto - 1);
    }
}

} // verus!
