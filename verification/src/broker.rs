//! What is published to the message broker, and how it is written.

use vstd::prelude::*;
use vstd::string::*;
use crate::event::NodeEvent;
use crate::payment_hash::{format_payment_hash, hex_lower};

verus! {

/// One message for the broker's exchange.
#[derive(Debug)]
pub struct BrokerMessage {
    /// The routing key: the stable name of the event's kind.
    pub routing_key: String,
    /// The body: a JSON object as text, sent as UTF-8.
    pub body: String,
}

/// The character for a decimal digit from 0 to 9.
pub open spec fn decimal_digit(digit: int) -> char {
    ((48 + digit) as u8) as char
}

/// A number in decimal, without sign or leading zeros.
pub open spec fn decimal(n: nat) -> Seq<char>
    decreases n,
{
    if n < 10 {
        seq![decimal_digit(n as int)]
    } else {
        decimal(n / 10).push(decimal_digit((n % 10) as int))
    }
}

/// The body that announces a received payment: a JSON object with the
/// payment's identifier in hexadecimal and its amount.
pub open spec fn payment_body(payment_hash: Seq<u8>, amount_msat: u64) -> Seq<char> {
    "{\"payment_hash\": \""@ + hex_lower(payment_hash) + "\", \"amount_msat\": "@ + decimal(
        amount_msat as nat,
    ) + "}"@
}

/// What is published for an event: for a received payment, its body under
/// the name of its kind; for any other event, nothing.
pub open spec fn publication_spec(event: NodeEvent) -> Option<(Seq<char>, Seq<char>)> {
    match event {
        NodeEvent::PaymentReceived { payment_hash, amount_msat } => Some(
            (event.kind_spec().name_spec(), payment_body(payment_hash@, amount_msat)),
        ),
        _ => None,
    }
}

fn digit_text(digit: u64) -> (text: &'static str)
    requires
        digit < 10,
    ensures
        text@ == seq![decimal_digit(digit as int)],
{
    proof {
        reveal_strlit("0");
        reveal_strlit("1");
        reveal_strlit("2");
        reveal_strlit("3");
        reveal_strlit("4");
        reveal_strlit("5");
        reveal_strlit("6");
        reveal_strlit("7");
        reveal_strlit("8");
        reveal_strlit("9");
    }
    let text = if digit == 0 {
        "0"
    } else if digit == 1 {
        "1"
    } else if digit == 2 {
        "2"
    } else if digit == 3 {
        "3"
    } else if digit == 4 {
        "4"
    } else if digit == 5 {
        "5"
    } else if digit == 6 {
        "6"
    } else if digit == 7 {
        "7"
    } else if digit == 8 {
        "8"
    } else {
        "9"
    };
    assert(text@ =~= seq![decimal_digit(digit as int)]);
    text
}

/// Writes a number in decimal.
pub fn format_decimal(n: u64) -> (text: String)
    ensures
        text@ == decimal(n as nat),
    decreases n,
{
    if n < 10 {
        String::from_str(digit_text(n))
    } else {
        let mut text = format_decimal(n / 10);
        text.append(digit_text(n % 10));
        text
    }
}

/// Writes the body that announces a received payment.
pub fn format_payment_body(payment_hash: &[u8; 32], amount_msat: u64) -> (body: String)
    ensures
        body@ == payment_body(payment_hash@, amount_msat),
{
    let mut body = String::from_str("{\"payment_hash\": \"");
    body.append(format_payment_hash(payment_hash).as_str());
    body.append("\", \"amount_msat\": ");
    body.append(format_decimal(amount_msat).as_str());
    body.append("}");
    body
}

/// Decides what leaves the process for an event. Only a received payment
/// is published; every other kind of event gives `None`.
pub fn publication(event: &NodeEvent) -> (message: Option<BrokerMessage>)
    ensures
        message is Some <==> *event is PaymentReceived,
        message is Some <==> event.kind_spec().is_published_spec(),
        match (message, publication_spec(*event)) {
            (Some(message), Some((routing_key, body))) => message.routing_key@ == routing_key
                && message.body@ == body,
            (None, None) => true,
            _ => false,
        },
{
    match event {
        NodeEvent::PaymentReceived { payment_hash, amount_msat } => Some(
            BrokerMessage {
                routing_key: String::from_str(event.kind().name()),
                body: format_payment_body(payment_hash, *amount_msat),
            },
        ),
        _ => None,
    }
}

} // verus!
