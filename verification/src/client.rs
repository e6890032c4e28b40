//! The client's side of the connection: its state, and what connecting and
//! sending do in each state.
use vstd::prelude::*;
use vstd::string::*;
use std::sync::mpsc::Sender;

use crate::config::Config;
use crate::failure::{Failure, FailureType};
use crate::network::{username_fits, Packet, Payload, NETWORK_VERSION};

verus! {

#[verifier::external_type_specification]
#[verifier::external_body]
#[verifier::reject_recursive_types(T)]
pub struct ExSender<T>(Sender<T>);

/// Calls `std::sync::mpsc::Sender::send`: hands `packet` to the channel.
/// Whether the receiving end is still there is not known here; a refusal
/// comes back as the text of the error.
#[verifier::external_body]
fn send_packet(sender: &Sender<Packet>, packet: Packet) -> (r: Result<(), String>) {
    sender.send(packet).map_err(|e| e.to_string())
}

/// Calls `rustls::crypto::ring::default_provider` and installs it as the
/// process default, unless one is installed already.
#[verifier::external_body]
fn install_crypto_provider() {
    let _ = rustls::crypto::ring::default_provider().install_default();
}

/// Where the client stands with the server: connected, with the channel to
/// the thread that talks to the server; on its way; or not connected.
#[derive(Debug)]
pub enum ConnectionStatus {
    Connected(Sender<Packet>),
    Connecting,
    NotConnected,
}

/// The client's connection state and the group it sends as.
pub struct InternetClient {
    connection_status: ConnectionStatus,
    group_id: u32,
}

impl InternetClient {
    /// The connection state.
    pub closed spec fn status(&self) -> ConnectionStatus {
        self.connection_status
    }

    /// The group the client's packets carry.
    pub closed spec fn group(&self) -> u32 {
        self.group_id
    }

    /// A client that is not connected and sends as group 0.
    pub fn new() -> (c: InternetClient)
        ensures
            c.status() is NotConnected,
            c.group() == 0,
    {
        install_crypto_provider();
        InternetClient { connection_status: ConnectionStatus::NotConnected, group_id: 0 }
    }

    /// Start connecting: a client that is not connected becomes connecting;
    /// one that is connected or connecting is refused with a warning.
    pub fn connect(&mut self) -> (r: Result<(), Failure>)
        ensures
            final(self).group() == old(self).group(),
            match old(self).status() {
                ConnectionStatus::Connected(_) => {
                    &&& r matches Err(f) && f.is(
                        FailureType::Warning,
                        "Already connected to server"@,
                    )
                    &&& final(self).status() == old(self).status()
                },
                ConnectionStatus::Connecting => {
                    &&& r matches Err(f) && f.is(
                        FailureType::Warning,
                        "Already connecting to server"@,
                    )
                    &&& final(self).status() == old(self).status()
                },
                ConnectionStatus::NotConnected => {
                    &&& r is Ok
                    &&& final(self).status() is Connecting
                },
            },
    {
        match &self.connection_status {
            ConnectionStatus::Connected(_) => Err(
                Failure::new(String::from_str("Already connected to server"), FailureType::Warning),
            ),
            ConnectionStatus::Connecting => Err(
                Failure::new(String::from_str("Already connecting to server"), FailureType::Warning),
            ),
            ConnectionStatus::NotConnected => {
                self.connection_status = ConnectionStatus::Connecting;
                Ok(())
            },
        }
    }

    /// `p` is the packet that carries `payload` from the user configured in
    /// `c`: the current protocol version, the configured name, the client's
    /// group and the payload.
    pub open spec fn is_outgoing(&self, c: Config, payload: Payload, p: Packet) -> bool {
        &&& p.version@ == NETWORK_VERSION@
        &&& p.username@ == c.username@
        &&& p.group_id == self.group()
        &&& p.payload == payload
    }

    /// The packet that sending `payload` hands to the connection; a failure
    /// when there is no configuration or the configured name does not fit a
    /// packet.
    pub fn outgoing_packet(&self, config: Option<&Config>, payload: Payload) -> (r: Result<
        Packet,
        Failure,
    >)
        ensures
            match config {
                None => r matches Err(f) && f.is(FailureType::Fatal, "Config not created"@),
                Some(c) => if username_fits(c.username@) {
                    r matches Ok(p) && self.is_outgoing(*c, payload, p)
                } else {
                    r matches Err(f) && f.is(FailureType::Warning, "username too long"@)
                },
            },
    {
        let cfg = match config {
            Some(c) => c,
            None => {
                return Err(Failure::new(String::from_str("Config not created"), FailureType::Fatal));
            },
        };
        Packet::new(cfg.username.as_str(), self.group_id, payload)
    }

    /// Send `payload` as the configured user in the client's group: the
    /// packet that [`InternetClient::outgoing_packet`] builds goes to the
    /// connection's channel when connected; a failure
    /// when there is no configuration, when the name does not fit a packet,
    /// or when the client is not connected.
    pub fn send_message(&mut self, config: Option<&Config>, payload: Payload) -> (r: Result<
        (),
        Failure,
    >)
        ensures
            *final(self) == *old(self),
            match config {
                None => r matches Err(f) && f.is(FailureType::Fatal, "Config not created"@),
                Some(c) => if !username_fits(c.username@) {
                    r matches Err(f) && f.is(FailureType::Warning, "username too long"@)
                } else {
                    match old(self).status() {
                        ConnectionStatus::Connected(_) => r matches Err(f) ==> f.kind()
                            == FailureType::Warning,
                        ConnectionStatus::Connecting => r matches Err(f) && f.is(
                            FailureType::Warning,
                            "Currently connecting to server, cannot send message"@,
                        ),
                        ConnectionStatus::NotConnected => r matches Err(f) && f.is(
                            FailureType::Warning,
                            "Not connected to server, cannot send message"@,
                        ),
                    }
                },
            },
    {
        let packet = match self.outgoing_packet(config, payload) {
            Ok(p) => p,
            Err(f) => {
                return Err(f);
            },
        };
        match &self.connection_status {
            ConnectionStatus::Connected(sender) => match send_packet(sender, packet) {
                Ok(()) => Ok(()),
                Err(e) => Err(Failure::new(e, FailureType::Warning)),
            },
            ConnectionStatus::Connecting => Err(
                Failure::new(
                    String::from_str("Currently connecting to server, cannot send message"),
                    FailureType::Warning,
                ),
            ),
            ConnectionStatus::NotConnected => Err(
                Failure::new(
                    String::from_str("Not connected to server, cannot send message"),
                    FailureType::Warning,
                ),
            ),
        }
    }

    /// Take on the state the connection has reached.
    pub fn update_connection(&mut self, connection_status: ConnectionStatus)
        ensures
            final(self).status() == connection_status,
            final(self).group() == old(self).group(),
    {
        self.connection_status = connection_status;
    }
}

} // verus!
