//! The event dispatcher: a registry of subscriber handles and the fan-out
//! of one event at a time to all of them.

use vstd::prelude::*;
use tokio::sync::mpsc::Sender;
use crate::broker::{publication, publication_spec, BrokerMessage};
use crate::config::RabbitMqConfig;
use crate::error::NodeError;
use crate::event::NodeEvent;

verus! {

/// The sending half of a bounded channel. A value of it is opaque here: it
/// is carried through, compared by channel and sent on.
#[verifier::external_type_specification]
#[verifier::external_body]
#[verifier::reject_recursive_types(T)]
pub struct ExSender<T>(Sender<T>);

/// Whether two handles belong to the same channel. This is a fact of the
/// two handles alone: nothing that is sent, received or closed changes it.
pub uninterp spec fn shares_channel(a: Sender<NodeEvent>, b: Sender<NodeEvent>) -> bool;

/// `Sender::same_channel`: true exactly when both handles were made for
/// one channel, by `channel` or by cloning.
#[verifier::external_body]
fn same_channel(a: &Sender<NodeEvent>, b: &Sender<NodeEvent>) -> (same: bool)
    ensures
        same == shares_channel(*a, *b),
{
    a.same_channel(b)
}

/// `Sender::try_send`: hands the event to the channel without waiting.
/// The answer is true when the channel took it, false when the channel is
/// closed or full; which of these happens depends on the receiver, so
/// nothing is claimed of the answer.
#[verifier::external_body]
fn try_deliver(handle: &Sender<NodeEvent>, event: NodeEvent) -> (accepted: bool) {
    handle.try_send(event).is_ok()
}

/// One registered subscriber: its handle, and the events its channel has
/// taken since it was registered.
pub struct Subscription {
    sender: Sender<NodeEvent>,
    delivered: Ghost<Seq<NodeEvent>>,
}

impl Subscription {
    /// The subscriber's handle.
    pub closed spec fn handle(self) -> Sender<NodeEvent> {
        self.sender
    }

    /// The events the subscriber's channel has taken, oldest first.
    pub closed spec fn delivered(self) -> Seq<NodeEvent> {
        self.delivered@
    }

    /// Whether this subscriber is the one that `handle` names.
    pub open spec fn is_for(self, handle: Sender<NodeEvent>) -> bool {
        shares_channel(self.handle(), handle)
    }

    /// This subscriber after its channel took `event`.
    pub closed spec fn accept(self, event: NodeEvent) -> Subscription {
        Subscription { sender: self.sender, delivered: Ghost(self.delivered@.push(event)) }
    }

    /// Decides what becomes of this subscriber once its channel answered
    /// to `event`: it stays, with the event added to what was delivered
    /// to it, when the channel took the event, and it is dropped when not.
    pub fn settle(self, accepted: bool, event: NodeEvent) -> (kept: Option<Subscription>)
        ensures
            kept == if accepted {
                Some(self.accept(event))
            } else {
                None
            },
    {
        if accepted {
            Some(Subscription { sender: self.sender, delivered: Ghost(self.delivered@.push(event)) })
        } else {
            None
        }
    }

    /// Taking an event keeps the handle and adds the event, once, at the
    /// end of what was delivered.
    pub proof fn lemma_accept(self, event: NodeEvent)
        ensures
            self.accept(event).handle() == self.handle(),
            self.accept(event).delivered() == self.delivered().push(event),
    {
    }
}

/// The registry after one event was offered to every entry: `outcomes`
/// says, entry by entry, whether the entry's channel took the event. An
/// entry that took it stays, with the event added to what was delivered to
/// it; an entry that did not is gone. The order of those that stay is kept.
pub open spec fn fan_out(
    entries: Seq<Subscription>,
    outcomes: Seq<bool>,
    event: NodeEvent,
) -> Seq<Subscription>
    recommends
        entries.len() == outcomes.len(),
    decreases entries.len(),
{
    if entries.len() == 0 || outcomes.len() == 0 {
        Seq::empty()
    } else {
        let earlier = fan_out(entries.drop_last(), outcomes.drop_last(), event);
        if outcomes.last() {
            earlier.push(entries.last().accept(event))
        } else {
            earlier
        }
    }
}

/// The registry after a run of events was offered, one after the other:
/// `reports` holds the answers to each event of the run.
pub open spec fn fan_out_run(
    entries: Seq<Subscription>,
    reports: Seq<Seq<bool>>,
    events: Seq<NodeEvent>,
) -> Seq<Subscription>
    recommends
        reports_fit(entries, reports, events),
    decreases events.len(),
{
    if events.len() == 0 || reports.len() == 0 {
        entries
    } else {
        fan_out(
            fan_out_run(entries, reports.drop_last(), events.drop_last()),
            reports.last(),
            events.last(),
        )
    }
}

/// Whether the reports of a run belong to it: there is one for each event,
/// and each holds one answer for every subscriber that was registered when
/// its event was offered.
pub open spec fn reports_fit(
    entries: Seq<Subscription>,
    reports: Seq<Seq<bool>>,
    events: Seq<NodeEvent>,
) -> bool
    decreases events.len(),
{
    if reports.len() != events.len() {
        false
    } else if events.len() == 0 {
        true
    } else {
        &&& reports_fit(entries, reports.drop_last(), events.drop_last())
        &&& reports.last().len() == fan_out_run(
            entries,
            reports.drop_last(),
            events.drop_last(),
        ).len()
    }
}

/// The position of the first entry that `handle` names, or the number of
/// entries when none does.
pub open spec fn first_position(entries: Seq<Subscription>, handle: Sender<NodeEvent>) -> int
    decreases entries.len(),
{
    if entries.len() == 0 {
        0
    } else if entries[0].is_for(handle) {
        0
    } else {
        1 + first_position(entries.drop_first(), handle)
    }
}

/// How many of the first `upto` answers of a report say that the event was
/// taken.
pub open spec fn accepted_before(outcomes: Seq<bool>, upto: int) -> nat
    decreases upto,
{
    if upto <= 0 || upto > outcomes.len() {
        0
    } else {
        accepted_before(outcomes, upto - 1) + if outcomes[upto - 1] {
            1nat
        } else {
            0nat
        }
    }
}

/// Publisher that sends events to its subscribers.
pub struct NodeEvents {
    pub listeners: Vec<Subscription>,
    pub rabbitmq_config: Option<RabbitMqConfig>,
}

impl NodeEvents {
    /// A dispatcher without subscribers. The broker configuration is kept
    /// for whoever opens the connection; `None` means that nothing is
    /// published.
    pub fn new(rabbitmq_config: Option<RabbitMqConfig>) -> (events: Self)
        ensures
            events.listeners@.len() == 0,
            events.rabbitmq_config == rabbitmq_config,
    {
        NodeEvents { listeners: Vec::new(), rabbitmq_config }
    }

    /// Registers a subscriber at the end of the registry. A handle that is
    /// registered already is registered once more.
    pub fn subscribe(&mut self, listener: Sender<NodeEvent>)
        ensures
            final(self).listeners@.len() == old(self).listeners@.len() + 1,
            final(self).listeners@.drop_last() == old(self).listeners@,
            final(self).listeners@.last().handle() == listener,
            final(self).listeners@.last().delivered() == Seq::<NodeEvent>::empty(),
            final(self).rabbitmq_config == old(self).rabbitmq_config,
    {
        self.listeners.push(Subscription { sender: listener, delivered: Ghost(Seq::empty()) });
    }

    /// Whether `message` is what this dispatcher publishes for `event`:
    /// the message for a received payment when a broker is configured,
    /// and nothing otherwise.
    pub open spec fn publishes(&self, event: NodeEvent, message: Option<BrokerMessage>) -> bool {
        &&& message is Some <==> self.rabbitmq_config is Some && event is PaymentReceived
        &&& message is Some ==> publication_spec(event) == Some(
            (message.unwrap().routing_key@, message.unwrap().body@),
        )
    }

    /// Decides what is to be published for `event` before it is fanned
    /// out: the message for a received payment when a broker is
    /// configured, and nothing otherwise.
    pub fn publication(&self, event: &NodeEvent) -> (message: Option<BrokerMessage>)
        ensures
            self.publishes(*event, message),
    {
        if self.rabbitmq_config.is_some() {
            publication(event)
        } else {
            None
        }
    }

    /// Removes the first entry that `listener` names. Fails, and changes
    /// nothing, when no entry does.
    pub fn unsubscribe(&mut self, listener: &Sender<NodeEvent>) -> (outcome: Result<(), NodeError>)
        ensures
            ({
                let before = old(self).listeners@;
                let at = first_position(before, *listener);
                if at < before.len() {
                    &&& outcome is Ok
                    &&& final(self).listeners@ == before.remove(at)
                } else {
                    &&& outcome == Err::<(), NodeError>(NodeError::SubscriberNotFound)
                    &&& final(self).listeners@ == before
                }
            }),
            final(self).rabbitmq_config == old(self).rabbitmq_config,
    {
        let mut index: usize = 0;
        while index < self.listeners.len()
            invariant
                index <= self.listeners@.len(),
                self.listeners@ == old(self).listeners@,
                self.rabbitmq_config == old(self).rabbitmq_config,
                forall|j: int|
                    0 <= j < index ==> !(#[trigger] self.listeners@[j]).is_for(*listener),
            decreases self.listeners@.len() - index,
        {
            if same_channel(&self.listeners[index].sender, listener) {
                proof {
                    lemma_first_position(self.listeners@, *listener, index as int);
                }
                self.listeners.remove(index);
                return Ok(());
            }
            index += 1;
        }
        proof {
            lemma_first_position(self.listeners@, *listener, index as int);
        }
        Err(NodeError::SubscriberNotFound)
    }

    /// Offers `event` to every subscriber, in registry order, without
    /// waiting. The report holds one answer per subscriber that was
    /// registered at the call: whether its channel took the event. A
    /// subscriber whose channel was closed or full is removed before the
    /// call returns; the others stay in their order.
    pub fn notify(&mut self, event: NodeEvent) -> (report: Vec<bool>)
        ensures
            report@.len() == old(self).listeners@.len(),
            final(self).listeners@ == fan_out(old(self).listeners@, report@, event),
            final(self).rabbitmq_config == old(self).rabbitmq_config,
    {
        let mut pending: Vec<Subscription> = Vec::new();
        core::mem::swap(&mut pending, &mut self.listeners);
        let ghost before = pending@;
        let mut report: Vec<bool> = Vec::new();
        for entry in offered: pending
            invariant
                offered.seq() == before,
                before == old(self).listeners@,
                self.rabbitmq_config == old(self).rabbitmq_config,
                report@.len() == offered.index(),
                self.listeners@ == fan_out(before.take(offered.index() as int), report@, event),
        {
            let ghost done = offered.index() as int;
            let accepted = try_deliver(&entry.sender, event);
            proof {
                assert(before.take(done + 1).drop_last() == before.take(done));
                assert(report@.push(accepted).drop_last() == report@);
            }
            report.push(accepted);
            match entry.settle(accepted, event) {
                Some(kept) => self.listeners.push(kept),
                None => {},
            }
        }
        proof {
            assert(before.take(before.len() as int) == before);
        }
        report
    }
}

/// Counts the subscribers that did not take an event.
pub fn count_refused(report: &Vec<bool>) -> (refused: usize)
    ensures
        refused == report@.len() - accepted_before(report@, report@.len() as int),
{
    let mut refused: usize = 0;
    let mut i: usize = 0;
    while i < report.len()
        invariant
            i <= report@.len(),
            refused == i - accepted_before(report@, i as int),
            accepted_before(report@, i as int) <= i,
        decreases report@.len() - i,
    {
        if !report[i] {
            refused += 1;
        }
        i += 1;
    }
    refused
}

/// `first_position` is the one index before which no entry is named by
/// `handle` and at which one is, or the number of entries when none is.
pub proof fn lemma_first_position(entries: Seq<Subscription>, handle: Sender<NodeEvent>, at: int)
    requires
        0 <= at <= entries.len(),
        forall|j: int| 0 <= j < at ==> !(#[trigger] entries[j]).is_for(handle),
        at < entries.len() ==> entries[at].is_for(handle),
    ensures
        first_position(entries, handle) == at,
    decreases entries.len(),
{
    if entries.len() > 0 && at > 0 {
        let rest = entries.drop_first();
        assert forall|j: int| 0 <= j < at - 1 implies !(#[trigger] rest[j]).is_for(handle) by {
            assert(rest[j] == entries[j + 1]);
        }
        lemma_first_position(rest, handle, at - 1);
    }
}


proof fn lemma_accepted_before_prefix(outcomes: Seq<bool>, upto: int)
    requires
        0 <= upto < outcomes.len(),
    ensures
        accepted_before(outcomes.drop_last(), upto) == accepted_before(outcomes, upto),
    decreases upto,
{
    if upto > 0 {
        lemma_accepted_before_prefix(outcomes, upto - 1);
    }
}

proof fn lemma_accepted_before_grows(outcomes: Seq<bool>, earlier: int, later: int)
    requires
        0 <= earlier < later <= outcomes.len(),
    ensures
        accepted_before(outcomes, earlier) <= accepted_before(outcomes, later),
        outcomes[earlier] ==> accepted_before(outcomes, earlier) < accepted_before(outcomes, later),
    decreases later - earlier,
{
    if earlier + 1 < later {
        lemma_accepted_before_grows(outcomes, earlier, later - 1);
    }
}

/// Fan-out keeps the registry's order: of two subscribers that took the
/// event, the one that was registered earlier stands earlier afterwards.
pub proof fn lemma_fan_out_keeps_order(
    entries: Seq<Subscription>,
    outcomes: Seq<bool>,
    event: NodeEvent,
    earlier: int,
    later: int,
)
    requires
        entries.len() == outcomes.len(),
        0 <= earlier < later < entries.len(),
        outcomes[earlier],
        outcomes[later],
    ensures
        ({
            let after = fan_out(entries, outcomes, event);
            let first = accepted_before(outcomes, earlier) as int;
            let second = accepted_before(outcomes, later) as int;
            &&& first < second < after.len()
            &&& after[first] == entries[earlier].accept(event)
            &&& after[second] == entries[later].accept(event)
        }),
{
    lemma_accepted_before_grows(outcomes, earlier, later);
    lemma_fan_out_complete(entries, outcomes, event, earlier);
    lemma_fan_out_complete(entries, outcomes, event, later);
}

/// Fan-out is complete: after an event was offered to a registry, as many
/// subscribers remain as took the event, and every subscriber that took it
/// is among them, at the place its rank among those gives it, with the same
/// handle and with the event added exactly once, at the end, to what had
/// been delivered to it.
pub proof fn lemma_fan_out_complete(
    entries: Seq<Subscription>,
    outcomes: Seq<bool>,
    event: NodeEvent,
    i: int,
)
    requires
        entries.len() == outcomes.len(),
        0 <= i < entries.len(),
    ensures
        fan_out(entries, outcomes, event).len() == accepted_before(outcomes, outcomes.len() as int),
        outcomes[i] ==> {
            let place = accepted_before(outcomes, i) as int;
            &&& place < fan_out(entries, outcomes, event).len()
            &&& fan_out(entries, outcomes, event)[place] == entries[i].accept(event)
            &&& fan_out(entries, outcomes, event)[place].handle() == entries[i].handle()
            &&& fan_out(entries, outcomes, event)[place].delivered() == entries[i].delivered().push(
                event,
            )
        },
    decreases entries.len(),
{
    let last = entries.len() - 1;
    let shorter = entries.drop_last();
    let fewer = outcomes.drop_last();
    lemma_fan_out_len(entries, outcomes, event);
    lemma_fan_out_len(shorter, fewer, event);
    if i < last {
        lemma_fan_out_complete(shorter, fewer, event, i);
        lemma_accepted_before_prefix(outcomes, i);
    } else {
        lemma_accepted_before_prefix(outcomes, last);
    }
}

/// After an event was offered to a registry, as many subscribers remain
/// as took it.
pub proof fn lemma_fan_out_len(entries: Seq<Subscription>, outcomes: Seq<bool>, event: NodeEvent)
    requires
        entries.len() == outcomes.len(),
    ensures
        fan_out(entries, outcomes, event).len() == accepted_before(outcomes, outcomes.len() as int),
    decreases entries.len(),
{
    if entries.len() > 0 {
        lemma_fan_out_len(entries.drop_last(), outcomes.drop_last(), event);
        lemma_accepted_before_prefix(outcomes, outcomes.len() - 1);
    }
}

/// Nobody else receives: every subscriber that remains after a fan-out was
/// registered before it and took the event.
pub proof fn lemma_fan_out_source(
    entries: Seq<Subscription>,
    outcomes: Seq<bool>,
    event: NodeEvent,
    place: int,
) -> (i: int)
    requires
        entries.len() == outcomes.len(),
        0 <= place < fan_out(entries, outcomes, event).len(),
    ensures
        0 <= i < entries.len(),
        outcomes[i],
        accepted_before(outcomes, i) == place,
        fan_out(entries, outcomes, event)[place] == entries[i].accept(event),
    decreases entries.len(),
{
    let last = entries.len() - 1;
    let shorter = entries.drop_last();
    let fewer = outcomes.drop_last();
    lemma_fan_out_len(shorter, fewer, event);
    lemma_accepted_before_prefix(outcomes, last);
    if outcomes[last] && place == fan_out(shorter, fewer, event).len() {
        last
    } else {
        let i = lemma_fan_out_source(shorter, fewer, event, place);
        lemma_accepted_before_prefix(outcomes, i);
        i
    }
}

/// Events arrive in the order in which they were offered: a subscriber
/// that is registered after a run of events was registered before it, and
/// what was delivered to it since is the run itself, every event once and
/// in the order of the run. A subscriber that did not take one of the
/// events is gone before the next is offered.
pub proof fn lemma_events_arrive_in_order(
    entries: Seq<Subscription>,
    reports: Seq<Seq<bool>>,
    events: Seq<NodeEvent>,
    place: int,
) -> (i: int)
    requires
        reports_fit(entries, reports, events),
        0 <= place < fan_out_run(entries, reports, events).len(),
    ensures
        0 <= i < entries.len(),
        fan_out_run(entries, reports, events)[place].handle() == entries[i].handle(),
        fan_out_run(entries, reports, events)[place].delivered() == entries[i].delivered() + events,
    decreases events.len(),
{
    if events.len() == 0 {
        assert(entries[place].delivered() + events == entries[place].delivered());
        place
    } else {
        let earlier = fan_out_run(entries, reports.drop_last(), events.drop_last());
        let between = lemma_fan_out_source(earlier, reports.last(), events.last(), place);
        let i = lemma_events_arrive_in_order(
            entries,
            reports.drop_last(),
            events.drop_last(),
            between,
        );
        assert((entries[i].delivered() + events.drop_last()).push(events.last())
            == entries[i].delivered() + events);
        i
    }
}

/// A handle that no entry of a registry names is named by no entry after a
/// fan-out either: delivering registers nobody.
pub proof fn lemma_fan_out_registers_nobody(
    entries: Seq<Subscription>,
    outcomes: Seq<bool>,
    event: NodeEvent,
    handle: Sender<NodeEvent>,
)
    requires
        entries.len() == outcomes.len(),
        forall|j: int| 0 <= j < entries.len() ==> !(#[trigger] entries[j]).is_for(handle),
    ensures
        forall|k: int|
            0 <= k < fan_out(entries, outcomes, event).len() ==> !(#[trigger] fan_out(
                entries,
                outcomes,
                event,
            )[k]).is_for(handle),
{
    assert forall|k: int| 0 <= k < fan_out(entries, outcomes, event).len() implies !(
    #[trigger] fan_out(entries, outcomes, event)[k]).is_for(handle) by {
        let i = lemma_fan_out_source(entries, outcomes, event, k);
        assert(!entries[i].is_for(handle));
    }
}

/// Unsubscribing takes effect: when a handle was registered once and is
/// unsubscribed, no entry of the registry names it any more, so it is
/// offered no further event, and unsubscribing it again finds nothing.
pub proof fn lemma_unsubscribed_is_gone(entries: Seq<Subscription>, handle: Sender<NodeEvent>)
    requires
        first_position(entries, handle) < entries.len(),
        forall|j: int|
            0 <= j < entries.len() && j != first_position(entries, handle) ==> !(
            #[trigger] entries[j]).is_for(handle),
    ensures
        ({
            let rest = entries.remove(first_position(entries, handle));
            &&& forall|j: int| 0 <= j < rest.len() ==> !(#[trigger] rest[j]).is_for(handle)
            &&& first_position(rest, handle) == rest.len()
        }),
{
    let at = first_position(entries, handle);
    lemma_first_position_bounds(entries, handle);
    let rest = entries.remove(at);
    assert forall|j: int| 0 <= j < rest.len() implies !(#[trigger] rest[j]).is_for(handle) by {
        if j < at {
            assert(rest[j] == entries[j]);
        } else {
            assert(rest[j] == entries[j + 1]);
        }
    }
    lemma_first_position(rest, handle, rest.len() as int);
}

/// `first_position` lies in the registry or just behind it.
pub proof fn lemma_first_position_bounds(entries: Seq<Subscription>, handle: Sender<NodeEvent>)
    ensures
        0 <= first_position(entries, handle) <= entries.len(),
    decreases entries.len(),
{
    if entries.len() > 0 && !entries[0].is_for(handle) {
        lemma_first_position_bounds(entries.drop_first(), handle);
    }
}

} // verus!
