//! Connection parameters of the external message broker.

use vstd::prelude::*;

verus! {

/// Name of the exchange every publication goes to.
pub const EXCHANGE_NAME: &'static str = "walletka.node";

/// Kind of that exchange: every bound queue receives every message.
pub const EXCHANGE_KIND: &'static str = "fanout";

/// Where the broker listens and how to log in. Immutable once built.
pub struct RabbitMqConfig {
    pub rabbitmq_host: String,
    pub rabbitmq_port: u16,
    pub rabbitmq_username: String,
    pub rabbitmq_password: String,
}

impl RabbitMqConfig {
    /// Builds a configuration from its four parts.
    pub fn new(host: String, port: u16, username: String, password: String) -> (config: Self)
        ensures
            config.rabbitmq_host == host,
            config.rabbitmq_port == port,
            config.rabbitmq_username == username,
            config.rabbitmq_password == password,
    {
        RabbitMqConfig {
            rabbitmq_host: host,
            rabbitmq_port: port,
            rabbitmq_username: username,
            rabbitmq_password: password,
        }
    }
}

} // verus!
