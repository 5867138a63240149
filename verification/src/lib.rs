//! Routing, fragmentation and the request/response protocol of a network
//! of drones, clients and servers.
use vstd::prelude::*;

pub mod packet;
pub mod fragmentation;
pub mod assembler;
pub mod drone;
pub mod topology;
pub mod message;
pub mod node;
pub mod communication_server;
pub mod content_server;
pub mod client;
pub mod config;
pub mod simulation;
pub mod session_assembler;
pub mod distribution;
pub mod downloads;
pub mod text;
pub mod logs;
pub mod app_state;
pub mod graph;
pub mod random;

verus! {

} // verus!
