//! Verified core of a small container runtime: the length-prefixed wire
//! format spoken between the command line, the server and the network
//! controller, the messages each side builds and reads, and the IPv4 pool
//! that hands addresses to containers.
#![allow(non_snake_case)]
#![allow(non_camel_case_types)]

use vstd::prelude::*;

pub mod cli;
pub mod controller;
pub mod ip_pool;
pub mod ipv4;
pub mod manager;
pub mod pipeline;
pub mod server;
pub mod wire;

verus! {

} // verus!
