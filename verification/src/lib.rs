//! Core logic of the reverb chat service: failures, the wire format of
//! packets and commands, the server's user and group registry, the
//! command-line command tree of the client, and the client's
//! configuration and connection state.

pub mod failure;
pub mod text;
pub mod command_spec;
pub mod network_command;
pub mod fetched;
pub mod order;
pub mod network;
pub mod registry;
pub mod server;
pub mod group;
pub mod network_group;
pub mod command_handling;
pub mod packet_handling;
pub mod config;
pub mod client;
