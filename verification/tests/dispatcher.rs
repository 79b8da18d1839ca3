use tokio::sync::mpsc::channel;
use tokio::sync::mpsc::error::TryRecvError;
use walletka_node::config::RabbitMqConfig;
use walletka_node::error::NodeError;
use walletka_node::event::NodeEvent;
use walletka_node::node_events::{count_refused, NodeEvents};

fn payment(byte: u8, amount_msat: u64) -> NodeEvent {
    NodeEvent::PaymentReceived { payment_hash: [byte; 32], amount_msat }
}

fn broker() -> RabbitMqConfig {
    RabbitMqConfig::new("localhost".to_string(), 5672, "guest".to_string(), "guest".to_string())
}

#[test]
fn new_dispatcher_has_no_subscribers() {
    let events = NodeEvents::new(None);
    assert_eq!(events.listeners.len(), 0);
    assert!(events.rabbitmq_config.is_none());
}

#[test]
fn new_dispatcher_keeps_the_broker_configuration() {
    let events = NodeEvents::new(Some(broker()));
    let config = events.rabbitmq_config.expect("configuration");
    assert_eq!(config.rabbitmq_host, "localhost");
    assert_eq!(config.rabbitmq_port, 5672);
    assert_eq!(config.rabbitmq_username, "guest");
    assert_eq!(config.rabbitmq_password, "guest");
}

#[test]
fn subscribe_appends_without_deduplication() {
    let (tx, _rx) = channel::<NodeEvent>(4);
    let mut events = NodeEvents::new(None);
    events.subscribe(tx.clone());
    events.subscribe(tx);
    assert_eq!(events.listeners.len(), 2);
}

#[test]
fn notify_without_subscribers_reports_nothing() {
    let mut events = NodeEvents::new(None);
    let report = events.notify(payment(1, 10));
    assert!(report.is_empty());
    assert_eq!(events.listeners.len(), 0);
}

#[test]
fn notify_reaches_every_subscriber_once() {
    let (tx1, mut rx1) = channel::<NodeEvent>(4);
    let (tx2, mut rx2) = channel::<NodeEvent>(4);
    let (tx3, mut rx3) = channel::<NodeEvent>(4);
    let mut events = NodeEvents::new(None);
    events.subscribe(tx1);
    events.subscribe(tx2);
    events.subscribe(tx3);
    let event = payment(7, 1234);
    let report = events.notify(event);
    assert_eq!(report, vec![true, true, true]);
    assert_eq!(events.listeners.len(), 3);
    assert_eq!(rx1.try_recv(), Ok(event));
    assert_eq!(rx2.try_recv(), Ok(event));
    assert_eq!(rx3.try_recv(), Ok(event));
    assert_eq!(rx1.try_recv(), Err(TryRecvError::Empty));
    assert_eq!(rx2.try_recv(), Err(TryRecvError::Empty));
    assert_eq!(rx3.try_recv(), Err(TryRecvError::Empty));
}

#[test]
fn notify_keeps_the_order_of_events() {
    let (tx1, mut rx1) = channel::<NodeEvent>(8);
    let (tx2, mut rx2) = channel::<NodeEvent>(8);
    let mut events = NodeEvents::new(None);
    events.subscribe(tx1);
    events.subscribe(tx2);
    let first = payment(1, 100);
    let second = NodeEvent::PaymentFailed { payment_hash: [2; 32] };
    let third = payment(3, 300);
    assert_eq!(events.notify(first), vec![true, true]);
    assert_eq!(events.notify(second), vec![true, true]);
    assert_eq!(events.notify(third), vec![true, true]);
    assert_eq!(rx1.try_recv(), Ok(first));
    assert_eq!(rx1.try_recv(), Ok(second));
    assert_eq!(rx1.try_recv(), Ok(third));
    assert_eq!(rx2.try_recv(), Ok(first));
    assert_eq!(rx2.try_recv(), Ok(second));
    assert_eq!(rx2.try_recv(), Ok(third));
}

#[test]
fn notify_removes_a_subscriber_whose_receiver_is_gone() {
    let (tx1, rx1) = channel::<NodeEvent>(4);
    let (tx2, mut rx2) = channel::<NodeEvent>(4);
    let mut events = NodeEvents::new(None);
    events.subscribe(tx1.clone());
    events.subscribe(tx2.clone());
    drop(rx1);
    let event = payment(9, 5);
    let report = events.notify(event);
    assert_eq!(report, vec![false, true]);
    assert_eq!(events.listeners.len(), 1);
    assert_eq!(rx2.try_recv(), Ok(event));
    assert_eq!(events.unsubscribe(&tx1), Err(NodeError::SubscriberNotFound));
    assert_eq!(events.unsubscribe(&tx2), Ok(()));
}

#[test]
fn notify_removes_a_subscriber_whose_channel_is_full() {
    let (tx1, mut rx1) = channel::<NodeEvent>(1);
    let (tx2, mut rx2) = channel::<NodeEvent>(2);
    let mut events = NodeEvents::new(None);
    events.subscribe(tx1);
    events.subscribe(tx2);
    let first = payment(1, 1);
    let second = payment(2, 2);
    assert_eq!(events.notify(first), vec![true, true]);
    assert_eq!(events.notify(second), vec![false, true]);
    assert_eq!(events.listeners.len(), 1);
    assert_eq!(rx1.try_recv(), Ok(first));
    assert_eq!(rx1.try_recv(), Err(TryRecvError::Disconnected));
    assert_eq!(rx2.try_recv(), Ok(first));
    assert_eq!(rx2.try_recv(), Ok(second));
}

#[test]
fn a_failed_delivery_does_not_stop_the_later_ones() {
    let (tx1, rx1) = channel::<NodeEvent>(1);
    let (tx2, mut rx2) = channel::<NodeEvent>(1);
    let (tx3, rx3) = channel::<NodeEvent>(1);
    let (tx4, mut rx4) = channel::<NodeEvent>(1);
    let mut events = NodeEvents::new(None);
    events.subscribe(tx1);
    events.subscribe(tx2.clone());
    events.subscribe(tx3);
    events.subscribe(tx4.clone());
    drop(rx1);
    drop(rx3);
    let event = payment(4, 44);
    assert_eq!(events.notify(event), vec![false, true, false, true]);
    assert_eq!(rx2.try_recv(), Ok(event));
    assert_eq!(rx4.try_recv(), Ok(event));
    assert_eq!(events.listeners.len(), 2);
    assert_eq!(events.unsubscribe(&tx2), Ok(()));
    assert_eq!(events.unsubscribe(&tx4), Ok(()));
    assert_eq!(events.listeners.len(), 0);
}

#[test]
fn unsubscribe_of_an_unknown_handle_fails() {
    let (tx1, _rx1) = channel::<NodeEvent>(1);
    let (tx2, _rx2) = channel::<NodeEvent>(1);
    let mut events = NodeEvents::new(None);
    assert_eq!(events.unsubscribe(&tx1), Err(NodeError::SubscriberNotFound));
    events.subscribe(tx1);
    assert_eq!(events.unsubscribe(&tx2), Err(NodeError::SubscriberNotFound));
    assert_eq!(events.listeners.len(), 1);
}

#[test]
fn unsubscribe_twice_fails_the_second_time() {
    let (tx, mut rx) = channel::<NodeEvent>(4);
    let mut events = NodeEvents::new(None);
    events.subscribe(tx.clone());
    assert_eq!(events.unsubscribe(&tx), Ok(()));
    assert_eq!(events.unsubscribe(&tx), Err(NodeError::SubscriberNotFound));
    assert!(events.notify(payment(1, 1)).is_empty());
    assert_eq!(rx.try_recv(), Err(TryRecvError::Empty));
}

#[test]
fn unsubscribe_finds_a_clone_of_the_handle() {
    let (tx, _rx) = channel::<NodeEvent>(4);
    let mut events = NodeEvents::new(None);
    events.subscribe(tx.clone());
    let copy = tx.clone();
    assert_eq!(events.unsubscribe(&copy), Ok(()));
    assert_eq!(events.listeners.len(), 0);
}

#[test]
fn unsubscribe_removes_only_the_first_of_two_registrations() {
    let (tx, mut rx) = channel::<NodeEvent>(4);
    let (other, mut other_rx) = channel::<NodeEvent>(4);
    let mut events = NodeEvents::new(None);
    events.subscribe(tx.clone());
    events.subscribe(other);
    events.subscribe(tx.clone());
    assert_eq!(events.unsubscribe(&tx), Ok(()));
    assert_eq!(events.listeners.len(), 2);
    let event = payment(5, 55);
    assert_eq!(events.notify(event), vec![true, true]);
    assert_eq!(other_rx.try_recv(), Ok(event));
    assert_eq!(rx.try_recv(), Ok(event));
    assert_eq!(rx.try_recv(), Err(TryRecvError::Empty));
    assert_eq!(events.unsubscribe(&tx), Ok(()));
    assert_eq!(events.unsubscribe(&tx), Err(NodeError::SubscriberNotFound));
}

#[test]
fn unsubscribing_the_first_of_two_leaves_the_second() {
    let (tx1, mut rx1) = channel::<NodeEvent>(4);
    let (tx2, mut rx2) = channel::<NodeEvent>(4);
    let mut events = NodeEvents::new(None);
    events.subscribe(tx1.clone());
    events.subscribe(tx2);
    let before = payment(1, 11);
    assert_eq!(events.notify(before), vec![true, true]);
    assert_eq!(events.unsubscribe(&tx1), Ok(()));
    let after = payment(2, 22);
    assert_eq!(events.notify(after), vec![true]);
    assert_eq!(rx1.try_recv(), Ok(before));
    assert_eq!(rx1.try_recv(), Err(TryRecvError::Empty));
    assert_eq!(rx2.try_recv(), Ok(before));
    assert_eq!(rx2.try_recv(), Ok(after));
}

#[test]
fn publication_needs_a_broker() {
    let events = NodeEvents::new(None);
    assert!(events.publication(&payment(1, 1)).is_none());
}

#[test]
fn publication_is_for_received_payments_only() {
    let events = NodeEvents::new(Some(broker()));
    let message = events.publication(&payment(0xab, 350000)).expect("message");
    assert_eq!(message.routing_key, "paymentreceived");
    assert_eq!(
        message.body,
        format!("{{\"payment_hash\": \"{}\", \"amount_msat\": 350000}}", "ab".repeat(32))
    );
    assert!(events.publication(&NodeEvent::PaymentSuccessful { payment_hash: [1; 32] }).is_none());
    assert!(events.publication(&NodeEvent::PaymentFailed { payment_hash: [1; 32] }).is_none());
    assert!(events
        .publication(&NodeEvent::ChannelReady {
            channel_id: [2; 32],
            user_channel_id: 7,
            counterparty_node_id: None,
        })
        .is_none());
    assert!(events
        .publication(&NodeEvent::ChannelClosed {
            channel_id: [2; 32],
            user_channel_id: 7,
            counterparty_node_id: Some([3; 33]),
        })
        .is_none());
}

#[test]
fn count_refused_counts_the_false_answers() {
    assert_eq!(count_refused(&Vec::new()), 0);
    assert_eq!(count_refused(&vec![true, true]), 0);
    assert_eq!(count_refused(&vec![false]), 1);
    assert_eq!(count_refused(&vec![true, false, false, true, false]), 3);
}
